//! Validator scripts on disk: which files are validators, the tags a script
//! gets from where it lies, and which script wins when several directories
//! hold one at the same relative path.
//!
//! A path is given as the list of its components.

use vstd::prelude::*;
use crate::numbers::chars_of;

verus! {

/// Index of the last `.` in `name`, if there is one.
pub open spec fn last_dot(name: Seq<char>) -> Option<int>
    decreases name.len(),
{
    if name.len() == 0 {
        None
    } else if name.last() == '.' {
        Some(name.len() - 1)
    } else {
        last_dot(name.drop_last())
    }
}

/// What `last_dot` gives: the index of a `.` with none after it, or `None`
/// where the name holds no `.`.
pub proof fn lemma_last_dot(name: Seq<char>)
    ensures
        last_dot(name) matches Some(i) ==> 0 <= i < name.len() && name[i] == '.' && forall|j: int|
            i < j < name.len() ==> name[j] != '.',
        last_dot(name) is None ==> forall|j: int| 0 <= j < name.len() ==> name[j] != '.',
    decreases name.len(),
{
    if name.len() > 0 && name.last() != '.' {
        lemma_last_dot(name.drop_last());
        let d = name.drop_last();
        assert forall|j: int| 0 <= j < d.len() implies d[j] == name[j] by {}
    }
}

/// The last `.` of a name is the one with no `.` after it.
pub proof fn lemma_last_dot_at(name: Seq<char>, i: int)
    requires
        0 <= i < name.len(),
        name[i] == '.',
        forall|j: int| i < j < name.len() ==> name[j] != '.',
    ensures
        last_dot(name) == Some(i),
    decreases name.len(),
{
    if i < name.len() - 1 {
        let d = name.drop_last();
        assert forall|j: int| i < j < d.len() implies d[j] != '.' by {
            assert(d[j] == name[j]);
        }
        lemma_last_dot_at(d, i);
    }
}

/// A file name split as `Path::file_stem` / `Path::extension` split it:
/// at the last `.`, unless that dot starts the name or the name is `..`.
pub open spec fn ext_dot(name: Seq<char>) -> Option<int> {
    if name == ".."@ {
        None
    } else {
        match last_dot(name) {
            Some(i) => if i > 0 {
                Some(i)
            } else {
                None
            },
            None => None,
        }
    }
}

/// The name without its extension, as `with_extension("")` leaves it.
pub open spec fn spec_stem(name: Seq<char>) -> Seq<char> {
    match ext_dot(name) {
        Some(i) => name.take(i),
        None => name,
    }
}

/// The extension of a file name, as `Path::extension` gives it.
pub open spec fn spec_extension(name: Seq<char>) -> Option<Seq<char>> {
    match ext_dot(name) {
        Some(i) => Some(name.skip(i + 1)),
        None => None,
    }
}

/// Where the extension of `name` begins (the index of its dot).
fn find_ext_dot(name: &str) -> (r: Option<usize>)
    ensures
        r matches Some(i) ==> ext_dot(name@) == Some(i as int),
        r is None <==> ext_dot(name@) is None,
{
    let cs = chars_of(name);
    proof {
        reveal_strlit("..");
    }
    let owned = name.to_owned();
    let dotdot = "..".to_owned();
    if owned == dotdot {
        return None;
    }
    let mut i: usize = cs.len();
    assert(name@.take(i as int) =~= name@);
    while i > 0
        invariant
            cs@ == name@,
            i <= cs@.len(),
            last_dot(name@) == last_dot(name@.take(i as int)),
            name@ != ".."@,
        decreases i,
    {
        let ghost t = name@.take(i as int);
        assert(t.drop_last() =~= name@.take(i - 1));
        assert(t.last() == cs@[i - 1]);
        if cs[i - 1] == '.' {
            return if i - 1 > 0 {
                Some(i - 1)
            } else {
                None
            };
        }
        i = i - 1;
    }
    assert(name@.take(0) =~= Seq::<char>::empty());
    None
}

/// The name without its extension (see `spec_stem`).
pub fn stem(name: &String) -> (r: String)
    ensures
        r@ == spec_stem(name@),
{
    match find_ext_dot(name.as_str()) {
        Some(i) => {
            proof {
                lemma_last_dot(name@);
            }
            let sub = name.as_str().substring_char(0, i);
            assert(sub@ =~= name@.take(i as int));
            String::from_str(sub)
        },
        None => name.clone(),
    }
}

/// `name` is a validator script: it starts with `filename_prefix` and its
/// extension is `ext`.
pub open spec fn spec_is_validator_file(
    name: Seq<char>,
    filename_prefix: Seq<char>,
    ext: Seq<char>,
) -> bool {
    &&& filename_prefix.len() <= name.len()
    &&& name.take(filename_prefix.len() as int) == filename_prefix
    &&& spec_extension(name) == Some(ext)
}

/// Whether the file `name` is a validator script (see
/// `spec_is_validator_file`), such as `check_numa.py` for prefix `check_`
/// and extension `py`.
pub fn is_validator_file(name: &str, filename_prefix: &str, ext: &str) -> (r: bool)
    ensures
        r == spec_is_validator_file(name@, filename_prefix@, ext@),
{
    let n = name.unicode_len();
    let p = filename_prefix.unicode_len();
    if p > n {
        return false;
    }
    let head = name.substring_char(0, p).to_owned();
    if head != filename_prefix.to_owned() {
        return false;
    }
    match find_ext_dot(name) {
        None => false,
        Some(i) => {
            proof {
                lemma_last_dot(name@);
            }
            let e = name.substring_char(i + 1, n).to_owned();
            e == ext.to_owned()
        },
    }
}

/// Components joined by `/`.
pub open spec fn join_path(c: Seq<Seq<char>>) -> Seq<char>
    decreases c.len(),
{
    if c.len() == 0 {
        Seq::<char>::empty()
    } else if c.len() == 1 {
        c[0]
    } else {
        join_path(c.drop_last()) + "/"@ + c.last()
    }
}

/// The tag of the ancestor of `rel` made of its first `k` components: those
/// joined by `/`; for the script itself (`k` the whole length) its file
/// name without its extension. Directory names stay whole.
pub open spec fn ancestor_tag(rel: Seq<Seq<char>>, k: int) -> Seq<char> {
    if k == rel.len() {
        join_path(rel.take(k - 1).push(spec_stem(rel[k - 1])))
    } else {
        join_path(rel.take(k))
    }
}

/// The tags of the first `n` ancestors of `rel`, longest first, empty ones
/// left out.
pub open spec fn tags_down(rel: Seq<Seq<char>>, n: nat) -> Seq<Seq<char>>
    decreases n,
{
    if n == 0 {
        Seq::<Seq<char>>::empty()
    } else {
        let prev = tags_down(rel, (n - 1) as nat);
        let t = ancestor_tag(rel, rel.len() - (n - 1));
        if t.len() > 0 {
            prev.push(t)
        } else {
            prev
        }
    }
}

/// The tags of a validator at the relative path `rel`: the path itself
/// without the extension of its file name, then each directory it lies in,
/// longest first.
pub open spec fn spec_tags_for_relative(rel: Seq<Seq<char>>) -> Seq<Seq<char>> {
    tags_down(rel, rel.len())
}

/// `path` with the components of `prefix` in front of it removed, where it
/// starts with them.
pub open spec fn spec_strip_prefix(prefix: Seq<Seq<char>>, path: Seq<Seq<char>>) -> Option<
    Seq<Seq<char>>,
> {
    if prefix.len() <= path.len() && path.take(prefix.len() as int) == prefix {
        Some(path.skip(prefix.len() as int))
    } else {
        None
    }
}

/// The tags of the validator at `path` found under the directory `prefix`;
/// none where `path` does not lie under it.
pub open spec fn spec_tags_for_path(prefix: Seq<Seq<char>>, path: Seq<Seq<char>>) -> Seq<
    Seq<char>,
> {
    match spec_strip_prefix(prefix, path) {
        Some(rel) => spec_tags_for_relative(rel),
        None => Seq::<Seq<char>>::empty(),
    }
}

/// Whether two component lists are equal.
pub fn components_eq(a: &Vec<String>, b: &Vec<String>) -> (r: bool)
    ensures
        r == (a.deep_view() == b.deep_view()),
{
    if a.len() != b.len() {
        return false;
    }
    let mut i: usize = 0;
    while i < a.len()
        invariant
            a@.len() == b@.len(),
            i <= a@.len(),
            a.deep_view().take(i as int) == b.deep_view().take(i as int),
        decreases a@.len() - i,
    {
        if a[i] != b[i] {
            assert(a.deep_view()[i as int] != b.deep_view()[i as int]);
            return false;
        }
        i = i + 1;
        assert(a.deep_view().take(i as int) =~= a.deep_view().take(i - 1).push(a@[i - 1]@));
        assert(b.deep_view().take(i as int) =~= b.deep_view().take(i - 1).push(b@[i - 1]@));
    }
    assert(a.deep_view().take(i as int) =~= a.deep_view());
    assert(b.deep_view().take(i as int) =~= b.deep_view());
    true
}

/// `path` relative to `prefix` (see `spec_strip_prefix`).
pub fn strip_prefix(prefix: &Vec<String>, path: &Vec<String>) -> (r: Option<Vec<String>>)
    ensures
        match spec_strip_prefix(prefix.deep_view(), path.deep_view()) {
            Some(rel) => r matches Some(v) && v.deep_view() == rel,
            None => r is None,
        },
{
    let pl = prefix.len();
    if pl > path.len() {
        return None;
    }
    let mut i: usize = 0;
    while i < pl
        invariant
            pl == prefix@.len(),
            pl <= path@.len(),
            i <= pl,
            path.deep_view().take(i as int) == prefix.deep_view().take(i as int),
        decreases pl - i,
    {
        if path[i] != prefix[i] {
            assert(path.deep_view().take(pl as int)[i as int] != prefix.deep_view()[i as int]);
            return None;
        }
        i = i + 1;
        assert(path.deep_view().take(i as int) =~= path.deep_view().take(i - 1).push(
            path@[i - 1]@,
        ));
        assert(prefix.deep_view().take(i as int) =~= prefix.deep_view().take(i - 1).push(
            prefix@[i - 1]@,
        ));
    }
    assert(prefix.deep_view().take(pl as int) =~= prefix.deep_view());
    let mut rel: Vec<String> = Vec::new();
    let mut j: usize = pl;
    while j < path.len()
        invariant
            pl <= j <= path@.len(),
            rel.deep_view() == path.deep_view().subrange(pl as int, j as int),
        decreases path@.len() - j,
    {
        let ghost before = rel.deep_view();
        let c = path[j].clone();
        assert(c@ == path.deep_view()[j as int]);
        rel.push(c);
        assert(rel.deep_view() =~= before.push(c@));
        j = j + 1;
        assert(rel.deep_view() =~= path.deep_view().subrange(pl as int, j as int));
    }
    assert(path.deep_view().subrange(pl as int, path@.len() as int) =~= path.deep_view().skip(
        pl as int,
    ));
    Some(rel)
}

/// The components of `rel` before `k`, joined by `/`, then `/` and `last`
/// (or `last` alone when `k` is 0).
fn join_ancestor(rel: &Vec<String>, k: usize, last: &String) -> (r: String)
    requires
        k <= rel@.len(),
    ensures
        r@ == join_path(rel.deep_view().take(k as int).push(last@)),
{
    proof {
        reveal_strlit("/");
    }
    let mut s = String::new();
    let mut j: usize = 0;
    while j < k
        invariant
            k <= rel@.len(),
            j <= k,
            s@ == join_path(rel.deep_view().take(j as int)),
        decreases k - j,
    {
        let ghost t = rel.deep_view().take(j as int + 1);
        assert(t.drop_last() =~= rel.deep_view().take(j as int));
        if j > 0 {
            s.append("/");
        }
        s.append(rel[j].as_str());
        j = j + 1;
        assert(t.last() == rel@[j - 1]@);
        if j == 1 {
            assert(t.len() == 1);
            assert(s@ =~= t[0]);
        }
    }
    let ghost c = rel.deep_view().take(k as int).push(last@);
    assert(c.drop_last() =~= rel.deep_view().take(k as int));
    if k > 0 {
        s.append("/");
    }
    s.append(last.as_str());
    if k == 0 {
        assert(s@ =~= c[0]);
    }
    s
}

/// The tags of a validator at the relative path `rel` (see
/// `spec_tags_for_relative`).
pub fn tags_for_relative(rel: &Vec<String>) -> (r: Vec<String>)
    ensures
        r.deep_view() == spec_tags_for_relative(rel.deep_view()),
{
    let n = rel.len();
    let mut out: Vec<String> = Vec::new();
    let mut i: usize = 0;
    while i < n
        invariant
            n == rel@.len(),
            i <= n,
            out.deep_view() == tags_down(rel.deep_view(), i as nat),
        decreases n - i,
    {
        let k = n - i;
        let last = if i == 0 {
            stem(&rel[k - 1])
        } else {
            rel[k - 1].clone()
        };
        let t = join_ancestor(rel, k - 1, &last);
        let ghost prev = out.deep_view();
        assert(rel.deep_view().take(k - 1).push(rel.deep_view()[k - 1]) =~= rel.deep_view().take(
            k as int,
        ));
        assert(t@ == ancestor_tag(rel.deep_view(), k as int));
        if !t.as_str().is_empty() {
            out.push(t);
            assert(out.deep_view() =~= prev.push(t@));
        }
        i = i + 1;
    }
    out
}

/// The tags of the validator at `path` found under the directory `prefix`
/// (see `spec_tags_for_path`). For `prefix/a/b/check_x.py` they are
/// `a/b/check_x`, `a/b` and `a`; for `prefix/x.d/check_a.py`, `x.d/check_a`
/// and `x.d`.
pub fn get_tags_for_path(prefix: &Vec<String>, path: &Vec<String>) -> (r: Vec<String>)
    ensures
        r.deep_view() == spec_tags_for_path(prefix.deep_view(), path.deep_view()),
{
    match strip_prefix(prefix, path) {
        Some(rel) => tags_for_relative(&rel),
        None => Vec::new(),
    }
}

} // verus!
