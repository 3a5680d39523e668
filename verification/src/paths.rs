//! Relative paths as `/`-separated strings, and the layout of the engine's
//! hidden directory.
use vstd::prelude::*;
use crate::chars::chars_to_string;
use crate::chars::push_chars;
use crate::chars::str_chars;
use vstd::string::StrSliceExecFns;
use crate::constants::OXEN_HIDDEN_DIR;

verus! {

/// `a` and `b` joined with a single separator.
pub open spec fn spec_join(a: Seq<char>, b: Seq<char>) -> Seq<char> {
    a + seq!['/'] + b
}

/// Join two path pieces with a `/`.
pub fn join_path(a: &str, b: &str) -> (r: String)
    ensures
        r@ == spec_join(a@, b@),
{
    let mut out = str_chars(a);
    out.push('/');
    let bs = str_chars(b);
    let n = bs.len();
    let mut i: usize = 0;
    while i < n
        invariant
            i <= n,
            n == bs@.len(),
            out@ == a@ + seq!['/'] + bs@.subrange(0, i as int),
        decreases n - i,
    {
        out.push(bs[i]);
        i = i + 1;
        proof {
            assert(out@ =~= a@ + seq!['/'] + bs@.subrange(0, i as int));
        }
    }
    proof {
        assert(out@ =~= spec_join(a@, b@));
    }
    chars_to_string(&out)
}

/// The hidden directory of the repository rooted at `path`.
pub open spec fn spec_oxen_hidden_dir(path: Seq<char>) -> Seq<char> {
    spec_join(path, OXEN_HIDDEN_DIR@)
}

/// Where all engine state lives for the repository rooted at `path`.
pub fn oxen_hidden_dir(path: &str) -> (r: String)
    ensures
        r@ == spec_oxen_hidden_dir(path@),
{
    join_path(path, OXEN_HIDDEN_DIR)
}

/// The parent of a relative path: everything before the last `/`, or `None`
/// for a bare file name.
pub open spec fn spec_parent(p: Seq<char>) -> Option<Seq<char>> {
    if exists|i: int| 0 <= i < p.len() && p[i] == '/' {
        let i = last_sep(p);
        Some(p.take(i))
    } else {
        None
    }
}

/// The index of the last `/` in `p`; meaningful only when one exists.
pub open spec fn last_sep(p: Seq<char>) -> int {
    choose|i: int|
        0 <= i < p.len() && p[i] == '/' && forall|j: int| i < j < p.len() ==> p[j] != '/'
}

/// A `/` with nothing after it exists whenever any `/` does.
pub proof fn lemma_last_sep(p: Seq<char>)
    requires
        exists|i: int| 0 <= i < p.len() && p[i] == '/',
    ensures
        0 <= last_sep(p) < p.len(),
        p[last_sep(p)] == '/',
        forall|j: int| last_sep(p) < j < p.len() ==> p[j] != '/',
    decreases p.len(),
{
    let n = p.len() as int;
    if p[n - 1] == '/' {
        let w = n - 1;
        assert(0 <= w < p.len() && p[w] == '/' && forall|j: int| w < j < p.len() ==> p[j] != '/');
    } else {
        let q = p.drop_last();
        assert(exists|i: int| 0 <= i < q.len() && q[i] == '/') by {
            let i = choose|i: int| 0 <= i < p.len() && p[i] == '/';
            assert(i != n - 1);
            assert(q[i] == '/');
        }
        lemma_last_sep(q);
        let w = last_sep(q);
        assert(p[w] == q[w]);
        assert(forall|j: int| w < j < p.len() - 1 ==> p[j] == q[j]);
        assert(0 <= w < p.len() && p[w] == '/' && forall|j: int| w < j < p.len() ==> p[j] != '/');
    }
}

/// The parent directory of a relative path, when it has one.
pub fn parent_path(p: &str) -> (r: Option<String>)
    ensures
        match r {
            Some(d) => spec_parent(p@) == Some(d@),
            None => spec_parent(p@) is None,
        },
{
    let cs = str_chars(p);
    let n = cs.len();
    let mut i: usize = n;
    while i > 0
        invariant
            i <= n,
            n == cs@.len(),
            cs@ == p@,
            forall|j: int| i <= j < n ==> cs@[j] != '/',
        decreases i,
    {
        let c = cs[i - 1];
        if c == '/' {
            let mut d: Vec<char> = Vec::new();
            let mut m: usize = 0;
            while m < i - 1
                invariant
                    m <= i - 1,
                    i >= 1,
                    i <= n,
                    n == cs@.len(),
                    cs@ == p@,
                    d@ == cs@.subrange(0, m as int),
                decreases i - 1 - m,
            {
                d.push(cs[m]);
                m = m + 1;
                proof {
                    assert(d@ =~= cs@.subrange(0, m as int));
                }
            }
            proof {
                let w = i - 1;
                assert(p@[w as int] == '/');
                lemma_last_sep(p@);
                let l = last_sep(p@);
                assert(forall|j: int| i <= j < n ==> p@[j] != '/');
                assert(l == w) by {
                    if l < w {
                        assert(p@[w as int] == '/');
                    }
                    if l > w {
                        assert(p@[l] != '/');
                    }
                }
                assert(d@ =~= p@.take(l));
            }
            return Some(chars_to_string(&d));
        }
        i = i - 1;
    }
    proof {
        assert(forall|j: int| 0 <= j < p@.len() ==> p@[j] != '/');
    }
    None
}

/// Does `p` contain a `/` anywhere, i.e. does it name something below a
/// directory?
pub fn has_parent_dir(p: &str) -> (r: bool)
    ensures
        r == (spec_parent(p@) is Some),
{
    parent_path(p).is_some()
}

/// Is `i` the dot an extension starts after: the last `.` of `p`, with no
/// `/` anywhere after it?
pub open spec fn is_ext_dot(p: Seq<char>, i: int) -> bool {
    &&& 0 <= i < p.len()
    &&& p[i] == '.'
    &&& forall|j: int| i < j < p.len() ==> (#[trigger] p[j]) != '.' && p[j] != '/'
}

/// Does the last component of `p` carry an extension?
pub open spec fn has_ext_dot(p: Seq<char>) -> bool {
    exists|i: int| #[trigger] is_ext_dot(p, i)
}

/// The position of the extension dot; meaningful only when one exists.
pub open spec fn ext_dot(p: Seq<char>) -> int {
    choose|i: int| #[trigger] is_ext_dot(p, i)
}

/// The extension of a path: everything after the last `.` of the last
/// component, or the empty string when that component has no dot.
pub open spec fn spec_extension(p: Seq<char>) -> Seq<char> {
    if has_ext_dot(p) {
        p.skip(ext_dot(p) + 1)
    } else {
        Seq::<char>::empty()
    }
}

/// The extension of a file name: everything after the last `.` of the last
/// component, or the empty string.
pub fn extension_of(p: &str) -> (r: String)
    ensures
        r@ == spec_extension(p@),
{
    let cs = str_chars(p);
    let n = cs.len();
    let mut i: usize = n;
    while i > 0
        invariant
            i <= n,
            n == cs@.len(),
            cs@ == p@,
            forall|j: int| i <= j < n ==> (#[trigger] p@[j]) != '.' && p@[j] != '/',
        decreases i,
    {
        let c = cs[i - 1];
        if c == '/' {
            proof {
                assert(!has_ext_dot(p@)) by {
                    if has_ext_dot(p@) {
                        let w = choose|w: int| #[trigger] is_ext_dot(p@, w);
                        if w < i - 1 {
                            assert(p@[i - 1] != '/');
                        } else if w == i - 1 {
                            assert(p@[w] == '.');
                        } else {
                            assert(p@[w] != '.');
                        }
                    }
                }
            }
            let e: Vec<char> = Vec::new();
            return chars_to_string(&e);
        }
        if c == '.' {
            proof {
                assert(is_ext_dot(p@, i - 1));
                assert(has_ext_dot(p@));
                let l = ext_dot(p@);
                assert(is_ext_dot(p@, l));
                assert(l == i - 1) by {
                    if l < i - 1 {
                        assert(p@[i - 1] != '.');
                    }
                    if l > i - 1 {
                        assert(p@[l] != '.');
                    }
                }
            }
            let mut e: Vec<char> = Vec::new();
            let mut m: usize = i;
            while m < n
                invariant
                    i <= m <= n,
                    n == cs@.len(),
                    cs@ == p@,
                    e@ == cs@.subrange(i as int, m as int),
                decreases n - m,
            {
                e.push(cs[m]);
                m = m + 1;
                proof {
                    assert(e@ =~= cs@.subrange(i as int, m as int));
                }
            }
            proof {
                assert(e@ =~= p@.skip(ext_dot(p@) + 1));
            }
            return chars_to_string(&e);
        }
        i = i - 1;
    }
    proof {
        assert(!has_ext_dot(p@)) by {
            if has_ext_dot(p@) {
                let w = choose|w: int| #[trigger] is_ext_dot(p@, w);
                assert(p@[w] != '.');
            }
        }
    }
    let e: Vec<char> = Vec::new();
    chars_to_string(&e)
}

/// The repository-relative path of the stored blob for one version of one
/// entry: under the hidden versions directory, in the entry's own
/// directory, named by the commit the version came from, keeping the
/// original extension.
pub open spec fn spec_version_path(id: Seq<char>, commit_id: Seq<char>, ext: Seq<char>) -> Seq<
    char,
> {
    ".oxen/versions/"@ + id + seq!['/'] + commit_id + (if ext.len() == 0 {
        Seq::<char>::empty()
    } else {
        seq!['.'] + ext
    })
}

/// The blob path for one version of an entry.
pub fn version_path(id: &str, commit_id: &str, ext: &str) -> (r: String)
    ensures
        r@ == spec_version_path(id@, commit_id@, ext@),
{
    let mut out: Vec<char> = Vec::new();
    push_chars(&mut out, ".oxen/versions/");
    push_chars(&mut out, id);
    out.push('/');
    push_chars(&mut out, commit_id);
    let en = ext.unicode_len();
    if en > 0 {
        out.push('.');
        push_chars(&mut out, ext);
        proof {
            assert(out@ =~= spec_version_path(id@, commit_id@, ext@));
        }
    } else {
        proof {
            assert(out@ =~= spec_version_path(id@, commit_id@, ext@));
        }
    }
    chars_to_string(&out)
}

} // verus!
