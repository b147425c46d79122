//! Classification of an analysed file: what kind of file it is decides both
//! the argument synthesised for its outermost lambda and the schema its
//! attribute names are checked against.

use vstd::prelude::*;
use crate::schema::Schema;
use std::sync::Arc;

verus! {

/// The lock state of a flake manifest.
pub enum LockedFlake {
    Unlocked,
    Pending,
    Locked { lock_file: String, inputs: String },
}

/// What kind of file is being analysed.
pub enum FileType {
    /// A generic module: evaluated against an imported package-set root and
    /// checked against a fixed schema.
    Other { nixpkgs_path: String, schema: Arc<Schema> },
    /// A member of a recognised package-set source tree.
    Nixpkgs { nixpkgs_path: String, relative_path: String },
    /// A flake manifest, with its lock state and the schema of manifest
    /// attribute names.
    Flake { locked: LockedFlake, schema: Arc<Schema> },
    /// A classification supplied by the caller: an explicit root value and
    /// schema.
    Custom { lambda_arg: String, schema: Arc<Schema> },
}

/// A file under analysis: its classification and its absolute path.
pub struct FileInfo {
    pub file_type: FileType,
    pub path: String,
}

/// The text with its trailing separators stripped.
pub open spec fn g_strip_trailing_slashes(p: Seq<char>) -> Seq<char>
    decreases p.len(),
{
    if p.len() > 0 && p.last() == '/' {
        g_strip_trailing_slashes(p.drop_last())
    } else {
        p
    }
}

/// The position of the last separator in a text.
pub open spec fn g_last_slash(s: Seq<char>) -> Option<int>
    decreases s.len(),
{
    if s.len() == 0 {
        None
    } else if s.last() == '/' {
        Some(s.len() - 1)
    } else {
        g_last_slash(s.drop_last())
    }
}

/// The parent directory of a path, by the platform's rule: trailing
/// separators are ignored, the last component falls away together with the
/// separators before it, a lone component has the empty parent, and a path
/// without a parent — the empty path or the root itself — falls back to the
/// root.
pub open spec fn spec_base_path(p: Seq<char>) -> Seq<char> {
    let q = g_strip_trailing_slashes(p);
    if q.len() == 0 {
        seq!['/']
    } else {
        match g_last_slash(q) {
            None => Seq::empty(),
            Some(k) => {
                let head = g_strip_trailing_slashes(q.take(k + 1));
                if head.len() == 0 {
                    seq!['/']
                } else {
                    head
                }
            },
        }
    }
}

/// The end of the text once trailing separators are stripped: the length of
/// the prefix that remains.
fn strip_trailing_slashes_end(v: &Vec<char>, upto: usize) -> (e: usize)
    requires
        upto <= v@.len(),
    ensures
        e <= upto,
        g_strip_trailing_slashes(v@.take(upto as int)) == v@.take(e as int),
        e > 0 ==> v@[e - 1] != '/',
{
    let mut e = upto;
    while e > 0 && v[e - 1] == '/'
        invariant
            upto <= v@.len(),
            e <= upto,
            g_strip_trailing_slashes(v@.take(upto as int)) == g_strip_trailing_slashes(
                v@.take(e as int),
            ),
        decreases e,
    {
        proof {
            assert(v@.take(e as int).last() == v@[e - 1]);
            assert(v@.take(e as int).drop_last() =~= v@.take(e - 1));
        }
        e = e - 1;
    }
    proof {
        if e > 0 {
            assert(v@.take(e as int).last() == v@[e - 1]);
        }
        assert(g_strip_trailing_slashes(v@.take(e as int)) == v@.take(e as int));
    }
    e
}

/// The position of the last separator, searching below a bound.
fn last_slash_below(v: &Vec<char>, upto: usize) -> (r: Option<usize>)
    requires
        upto <= v@.len(),
    ensures
        match r {
            Some(k) => k < upto && g_last_slash(v@.take(upto as int)) == Some(k as int),
            None => g_last_slash(v@.take(upto as int)) is None,
        },
{
    let mut i = upto;
    while i > 0
        invariant
            upto <= v@.len(),
            i <= upto,
            g_last_slash(v@.take(upto as int)) == g_last_slash(v@.take(i as int)),
        decreases i,
    {
        proof {
            assert(v@.take(i as int).last() == v@[i - 1]);
            assert(v@.take(i as int).drop_last() =~= v@.take(i - 1));
        }
        if v[i - 1] == '/' {
            return Some(i - 1);
        }
        i = i - 1;
    }
    proof {
        assert(v@.take(0) =~= Seq::<char>::empty());
    }
    None
}

impl FileInfo {
    /// The directory the file sits in; relative paths in rendered text are
    /// resolved against it.
    pub fn base_path(&self) -> (r: String)
        ensures
            r@ == spec_base_path(self.path@),
    {
        let mut v: Vec<char> = Vec::new();
        crate::strutil::push_str_chars(self.path.as_str(), &mut v);
        proof {
            assert(v@ =~= self.path@);
        }
        let n = v.len();
        proof {
            assert(v@.take(n as int) =~= v@);
        }
        let e = strip_trailing_slashes_end(&v, n);
        let ghost q = g_strip_trailing_slashes(v@);
        if e == 0 {
            proof {
                assert(q =~= Seq::<char>::empty());
            }
            let mut out: Vec<char> = Vec::new();
            out.push('/');
            proof {
                assert(out@ =~= seq!['/']);
            }
            return crate::strutil::chars_to_string(&out);
        }
        match last_slash_below(&v, e) {
            None => {
                proof {
                    assert(q == v@.take(e as int));
                    assert(spec_base_path(v@) =~= Seq::<char>::empty());
                }
                let out: Vec<char> = Vec::new();
                crate::strutil::chars_to_string(&out)
            }
            Some(k) => {
                proof {
                    assert(q.take(k + 1) =~= v@.take(k + 1));
                }
                let h = strip_trailing_slashes_end(&v, k + 1);
                proof {
                    assert(g_strip_trailing_slashes(q.take(k + 1)) == v@.take(h as int));
                }
                if h == 0 {
                    proof {
                        assert(v@.take(0) =~= Seq::<char>::empty());
                        assert(spec_base_path(v@) == seq!['/']);
                    }
                    let mut out: Vec<char> = Vec::new();
                    out.push('/');
                    proof {
                        assert(out@ =~= seq!['/']);
                    }
                    return crate::strutil::chars_to_string(&out);
                }
                proof {
                    assert(v@.take(h as int).len() == h);
                    assert(spec_base_path(v@) == v@.take(h as int));
                }
                let mut out: Vec<char> = Vec::new();
                let mut j: usize = 0;
                while j < h
                    invariant
                        h <= n,
                        n == v@.len(),
                        j <= h,
                        out@ == v@.take(j as int),
                    decreases h - j,
                {
                    out.push(v[j]);
                    proof {
                        assert(v@.take(j + 1) =~= v@.take(j as int).push(v@[j as int]));
                    }
                    j = j + 1;
                }
                crate::strutil::chars_to_string(&out)
            }
        }
    }
}

/// Classifies a file from its path: a manifest file is a flake; a file under
/// a recognised package-set root (found by the caller, who can see the disk)
/// is a source-tree member; anything else is a generic module using the
/// given fallback root and schema.
pub fn init_file_info(
    path: &str,
    nixpkgs_root: Option<String>,
    fallback_nixpkgs: String,
    fallback_schema: Arc<Schema>,
    flake_schema: Arc<Schema>,
) -> (r: FileInfo)
    ensures
        r.path@ == path@,
        is_flake_path(path@) ==> (r.file_type matches FileType::Flake {
            locked: LockedFlake::Unlocked,
            schema: s,
        } && s == flake_schema),
        !is_flake_path(path@) ==> match nixpkgs_root {
            Some(root) => r.file_type matches FileType::Nixpkgs {
                nixpkgs_path: p,
                relative_path: rel,
            } && p@ == root@ && rel@ == strip_dir_prefix(path@, root@),
            None => (r.file_type matches FileType::Other { nixpkgs_path: np, schema: s } && np@
                == fallback_nixpkgs@ && s == fallback_schema),
        },
{
    let owned = path_to_string(path);
    if ends_with_flake_file(path) {
        return FileInfo {
            file_type: FileType::Flake { locked: LockedFlake::Unlocked, schema: flake_schema },
            path: owned,
        };
    }
    match nixpkgs_root {
        Some(root) => {
            let rel = strip_prefix_exec(path, root.as_str());
            FileInfo {
                file_type: FileType::Nixpkgs { nixpkgs_path: root, relative_path: rel },
                path: owned,
            }
        }
        None => FileInfo {
            file_type: FileType::Other { nixpkgs_path: fallback_nixpkgs, schema: fallback_schema },
            path: owned,
        },
    }
}

fn path_to_string(path: &str) -> (r: String)
    ensures
        r@ == path@,
{
    let mut v: Vec<char> = Vec::new();
    crate::strutil::push_str_chars(path, &mut v);
    proof {
        assert(v@ =~= path@);
    }
    crate::strutil::chars_to_string(&v)
}

/// Whether a path names a flake manifest: it is `flake.nix`, or ends in
/// `/flake.nix`.
pub open spec fn is_flake_path(p: Seq<char>) -> bool {
    p == "flake.nix"@ || (p.len() >= 10 && p.skip(p.len() - 10) == "/flake.nix"@)
}

fn ends_with_flake_file(path: &str) -> (r: bool)
    ensures
        r == is_flake_path(path@),
{
    if crate::strutil::str_eq_str(path, "flake.nix") {
        return true;
    }
    let n = path.unicode_len();
    if n < 10 {
        proof {
            assert(!is_flake_path(path@));
        }
        return false;
    }
    let mut tail: Vec<char> = Vec::new();
    let mut i: usize = n - 10;
    while i < n
        invariant
            n == path@.len(),
            n >= 10,
            n - 10 <= i <= n,
            tail@ == path@.subrange(n - 10, i as int),
        decreases n - i,
    {
        tail.push(path.get_char(i));
        proof {
            assert(path@.subrange(n - 10, i + 1) =~= path@.subrange(n - 10, i as int).push(
                path@[i as int],
            ));
        }
        i = i + 1;
    }
    proof {
        assert(tail@ =~= path@.skip(n - 10));
    }
    crate::strutil::str_eq_chars("/flake.nix", &tail)
}

/// A path with a directory prefix and its separator removed; the path
/// unchanged where the prefix does not lead it.
/// A path with a directory prefix and its separator removed; the prefix is
/// matched with its own trailing separators ignored, and a path the prefix
/// does not lead stays unchanged.
pub open spec fn strip_dir_prefix(p: Seq<char>, root: Seq<char>) -> Seq<char> {
    let r = g_strip_trailing_slashes(root);
    if p.len() > r.len() + 1 && p.take(r.len() as int) == r && p[r.len() as int] == '/' {
        p.skip(r.len() + 1 as int)
    } else {
        p
    }
}

fn strip_prefix_exec(path: &str, root: &str) -> (r: String)
    ensures
        r@ == strip_dir_prefix(path@, root@),
{
    let n = path.unicode_len();
    let mut v: Vec<char> = Vec::new();
    crate::strutil::push_str_chars(path, &mut v);
    let mut rv: Vec<char> = Vec::new();
    crate::strutil::push_str_chars(root, &mut rv);
    proof {
        assert(v@ =~= path@);
        assert(rv@ =~= root@);
        assert(rv@.take(rv@.len() as int) =~= rv@);
    }
    let rn = rv.len();
    let m = strip_trailing_slashes_end(&rv, rn);
    let ghost rt = g_strip_trailing_slashes(root@);
    proof {
        assert(rt == rv@.take(m as int));
    }
    if n >= 2 && m <= n - 2 {
        let mut head: Vec<char> = Vec::new();
        let mut trimmed: Vec<char> = Vec::new();
        let mut i: usize = 0;
        while i < m
            invariant
                n == path@.len(),
                m <= rv@.len(),
                n >= m + 2,
                v@ == path@,
                v@.len() == n,
                rv@ == root@,
                i <= m,
                head@ == path@.take(i as int),
                trimmed@ == rv@.subrange(0, i as int),
            decreases m - i,
        {
            head.push(v[i]);
            trimmed.push(rv[i]);
            proof {
                assert(path@.take(i + 1) =~= path@.take(i as int).push(path@[i as int]));
                assert(rv@.subrange(0, i + 1) =~= rv@.subrange(0, i as int).push(rv@[i as int]));
            }
            i = i + 1;
        }
        proof {
            assert(head@ =~= path@.take(m as int));
            assert(trimmed@ =~= rt);
        }
        if crate::strutil::chars_eq(&head, &trimmed) && v[m] == '/' {
            let mut out: Vec<char> = Vec::new();
            let mut j: usize = m + 1;
            while j < n
                invariant
                    n == path@.len(),
                    n >= m + 2,
                    v@ == path@,
                    v@.len() == n,
                    m + 1 <= j <= n,
                    out@ == path@.subrange(m + 1, j as int),
                decreases n - j,
            {
                out.push(v[j]);
                proof {
                    assert(path@.subrange(m + 1, j + 1) =~= path@.subrange(m + 1, j as int).push(
                        path@[j as int],
                    ));
                }
                j = j + 1;
            }
            proof {
                assert(out@ =~= path@.skip(m + 1));
            }
            return crate::strutil::chars_to_string(&out);
        }
    }
    crate::strutil::chars_to_string(&v)
}

} // verus!
