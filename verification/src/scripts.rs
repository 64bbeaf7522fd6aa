//! Validator scripts found under several directories: the tags they carry
//! and the scripts that run, an earlier directory overriding a later one.

use vstd::prelude::*;
use crate::paths::{get_tags_for_path, spec_strip_prefix, spec_tags_for_path, strip_prefix, components_eq};
use crate::order::{lemma_path_lt_irreflexive, lemma_path_lt_total, lemma_path_lt_transitive, path_less, path_lt};
use crate::text::contains_string;

verus! {

/// Adds `s` to the set of strings `set` (kept free of duplicates).
pub fn insert_unique(set: &mut Vec<String>, s: String)
    requires
        old(set).deep_view().no_duplicates(),
    ensures
        final(set).deep_view().no_duplicates(),
        final(set).deep_view().to_set() == old(set).deep_view().to_set().insert(s@),
{
    if contains_string(set, &s) {
        assert(set.deep_view().to_set() =~= set.deep_view().to_set().insert(s@));
    } else {
        let ghost before = set.deep_view();
        set.push(s);
        proof {
            assert(set.deep_view() =~= before.push(s@));
            before.lemma_push_to_set_commute(s@);
            assert forall|a: int, b: int| 0 <= a < b < set.deep_view().len() implies set.deep_view()[a]
                != set.deep_view()[b] by {
                if b == before.len() {
                    assert(before.contains(before[a]));
                }
            }
        }
    }
}

/// Adds every string of `items` to the set of strings `set`.
pub fn insert_all(set: &mut Vec<String>, items: &Vec<String>)
    requires
        old(set).deep_view().no_duplicates(),
    ensures
        final(set).deep_view().no_duplicates(),
        final(set).deep_view().to_set() == old(set).deep_view().to_set() + items.deep_view().to_set(),
{
    let mut i: usize = 0;
    while i < items.len()
        invariant
            i <= items@.len(),
            set.deep_view().no_duplicates(),
            set.deep_view().to_set() == old(set).deep_view().to_set() + items.deep_view().take(
                i as int,
            ).to_set(),
        decreases items@.len() - i,
    {
        let s = items[i].clone();
        assert(s@ == items.deep_view()[i as int]);
        insert_unique(set, s);
        i = i + 1;
        proof {
            let t = items.deep_view().take(i as int);
            assert(t =~= items.deep_view().take(i - 1).push(s@));
            items.deep_view().take(i - 1).lemma_push_to_set_commute(s@);
        }
        assert(set.deep_view().to_set() =~= old(set).deep_view().to_set() + items.deep_view().take(
            i as int,
        ).to_set());
    }
    assert(items.deep_view().take(i as int) =~= items.deep_view());
}

/// Each path of `s` comes strictly before every later one.
pub open spec fn paths_increasing(s: Seq<Seq<Seq<char>>>) -> bool {
    forall|i: int, j: int| 0 <= i < j < s.len() ==> path_lt(#[trigger] s[i], #[trigger] s[j])
}

/// Every path of `found[i]`, for every `i`.
pub open spec fn spec_all_found(found: Seq<Seq<Seq<Seq<char>>>>) -> Set<Seq<Seq<char>>> {
    Set::new(
        |p: Seq<Seq<char>>|
            exists|i: int, j: int|
                0 <= i < found.len() && 0 <= j < found[i].len() && #[trigger] found[i][j] == p,
    )
}

/// The paths `found[k][m]` that come before `found[i][j]`, list by list.
pub open spec fn found_before(found: Seq<Seq<Seq<Seq<char>>>>, i: int, j: int) -> Set<
    Seq<Seq<char>>,
> {
    Set::new(
        |p: Seq<Seq<char>>|
            exists|k: int, m: int|
                0 <= k < found.len() && 0 <= m < found[k].len() && (k < i || (k == i && m < j))
                    && #[trigger] found[k][m] == p,
    )
}

/// A path strictly increasing list holds no path twice.
proof fn lemma_increasing_no_duplicates(s: Seq<Seq<Seq<char>>>)
    requires
        paths_increasing(s),
    ensures
        s.no_duplicates(),
{
    assert forall|a: int, b: int| 0 <= a < s.len() && 0 <= b < s.len() && a != b implies s[a]
        != s[b] by {
        if s[a] == s[b] {
            lemma_path_lt_irreflexive(s[a]);
            if a < b {
                assert(path_lt(s[a], s[b]));
            } else {
                assert(path_lt(s[b], s[a]));
            }
        }
    }
}

/// Adds the path `p` to the path list `set`, kept strictly increasing.
pub fn insert_path(set: &mut Vec<Vec<String>>, p: Vec<String>)
    requires
        paths_increasing(old(set).deep_view()),
    ensures
        paths_increasing(final(set).deep_view()),
        final(set).deep_view().to_set() == old(set).deep_view().to_set().insert(p.deep_view()),
{
    let ghost pv = p.deep_view();
    let mut i: usize = 0;
    while i < set.len() && path_less(&set[i], &p)
        invariant
            i <= set@.len(),
            pv == p.deep_view(),
            set.deep_view() == old(set).deep_view(),
            forall|k: int| 0 <= k < i ==> path_lt(#[trigger] set.deep_view()[k], pv),
        decreases set@.len() - i,
    {
        assert(set.deep_view()[i as int] == set@[i as int].deep_view());
        i = i + 1;
    }
    let ghost old_s = set.deep_view();
    if i < set.len() {
        assert(old_s[i as int] == set@[i as int].deep_view());
        if components_eq(&set[i], &p) {
            assert(old_s.contains(pv));
            assert(old_s.to_set() =~= old_s.to_set().insert(pv));
            return;
        }
        assert(!path_lt(old_s[i as int], pv));
        proof {
            lemma_path_lt_total(old_s[i as int], pv);
        }
    }
    set.insert(i, p);
    proof {
        let nr = set.deep_view();
        assert(nr =~= old_s.insert(i as int, pv));
        assert forall|a: int, b: int| 0 <= a < b < nr.len() implies path_lt(
            #[trigger] nr[a],
            #[trigger] nr[b],
        ) by {
            if a < i && b == i {
            } else if a == i && b > i {
                if b - 1 > i {
                    assert(path_lt(old_s[i as int], old_s[b - 1]));
                    lemma_path_lt_transitive(pv, old_s[i as int], old_s[b - 1]);
                }
            } else if a < i && b > i {
                assert(nr[a] == old_s[a] && nr[b] == old_s[b - 1]);
            } else if b < i {
                assert(nr[a] == old_s[a] && nr[b] == old_s[b]);
            } else {
                assert(nr[a] == old_s[a - 1] && nr[b] == old_s[b - 1]);
            }
        }
        assert forall|x: Seq<Seq<char>>| #[trigger] nr.contains(x) implies old_s.contains(x) || x
            == pv by {
            let k = choose|k: int| 0 <= k < nr.len() && nr[k] == x;
            if k < i {
                assert(old_s[k] == x);
            } else if k > i {
                assert(old_s[k - 1] == x);
            }
        }
        assert forall|x: Seq<Seq<char>>| #[trigger] old_s.contains(x) implies nr.contains(x) by {
            let k = choose|k: int| 0 <= k < old_s.len() && old_s[k] == x;
            if k < i {
                assert(nr[k] == x);
            } else {
                assert(nr[k + 1] == x);
            }
        }
        assert(nr[i as int] == pv);
        assert(nr.to_set() =~= old_s.to_set().insert(pv));
    }
}

/// Every path of the lists `found`, each once, in increasing order of
/// components: the scripts that several tags select, merged.
pub fn merge_paths(found: &Vec<Vec<Vec<String>>>) -> (r: Vec<Vec<String>>)
    ensures
        paths_increasing(r.deep_view()),
        r.deep_view().no_duplicates(),
        r.deep_view().to_set() == spec_all_found(found.deep_view()),
{
    let ghost fv = found.deep_view();
    let mut out: Vec<Vec<String>> = Vec::new();
    let mut i: usize = 0;
    assert(out.deep_view().to_set() =~= found_before(fv, 0, 0));
    while i < found.len()
        invariant
            i <= found@.len(),
            fv == found.deep_view(),
            paths_increasing(out.deep_view()),
            out.deep_view().to_set() == found_before(fv, i as int, 0),
        decreases found@.len() - i,
    {
        let mut j: usize = 0;
        assert(fv[i as int] == found@[i as int].deep_view());
        while j < found[i].len()
            invariant
                i < found@.len(),
                j <= found@[i as int]@.len(),
                fv == found.deep_view(),
                fv[i as int] == found@[i as int].deep_view(),
                paths_increasing(out.deep_view()),
                out.deep_view().to_set() == found_before(fv, i as int, j as int),
            decreases found@[i as int]@.len() - j,
        {
            let p = found[i][j].clone();
            assert(p.deep_view() == fv[i as int][j as int]);
            insert_path(&mut out, p);
            proof {
                let x = fv[i as int][j as int];
                assert forall|y: Seq<Seq<char>>| #[trigger] found_before(fv, i as int, j + 1).contains(y)
                    implies found_before(fv, i as int, j as int).insert(x).contains(y) by {
                    let (k, m) = choose|k: int, m: int|
                        0 <= k < fv.len() && 0 <= m < fv[k].len() && (k < i || (k == i && m < j + 1))
                            && #[trigger] fv[k][m] == y;
                    if !(k == i && m == j) {
                        assert(found_before(fv, i as int, j as int).contains(y));
                    }
                }
                assert forall|y: Seq<Seq<char>>|
                    #[trigger] found_before(fv, i as int, j as int).insert(x).contains(y) implies found_before(
                    fv,
                    i as int,
                    j + 1,
                ).contains(y) by {
                    if y == x {
                        assert(fv[i as int][j as int] == y);
                    } else {
                        let (k, m) = choose|k: int, m: int|
                            0 <= k < fv.len() && 0 <= m < fv[k].len() && (k < i || (k == i && m < j))
                                && #[trigger] fv[k][m] == y;
                        assert(fv[k][m] == y);
                    }
                }
                assert(found_before(fv, i as int, j + 1) =~= found_before(fv, i as int, j as int).insert(x));
            }
            j = j + 1;
        }
        proof {
            assert forall|y: Seq<Seq<char>>| #[trigger] found_before(fv, i + 1, 0).contains(y)
                implies found_before(fv, i as int, j as int).contains(y) by {
                let (k, m) = choose|k: int, m: int|
                    0 <= k < fv.len() && 0 <= m < fv[k].len() && (k < i + 1 || (k == i + 1 && m < 0))
                        && #[trigger] fv[k][m] == y;
                assert(fv[k][m] == y);
            }
            assert forall|y: Seq<Seq<char>>| #[trigger] found_before(fv, i as int, j as int).contains(y)
                implies found_before(fv, i + 1, 0).contains(y) by {
                let (k, m) = choose|k: int, m: int|
                    0 <= k < fv.len() && 0 <= m < fv[k].len() && (k < i || (k == i && m < j))
                        && #[trigger] fv[k][m] == y;
                assert(fv[k][m] == y);
            }
            assert(found_before(fv, i + 1, 0) =~= found_before(fv, i as int, j as int));
        }
        i = i + 1;
    }
    proof {
        assert forall|y: Seq<Seq<char>>| #[trigger] spec_all_found(fv).contains(y) implies found_before(
            fv,
            i as int,
            0,
        ).contains(y) by {
            let (k, m) = choose|k: int, m: int|
                0 <= k < fv.len() && 0 <= m < fv[k].len() && #[trigger] fv[k][m] == y;
            assert(fv[k][m] == y);
        }
        assert forall|y: Seq<Seq<char>>| #[trigger] found_before(fv, i as int, 0).contains(y) implies spec_all_found(
            fv,
        ).contains(y) by {
            let (k, m) = choose|k: int, m: int|
                0 <= k < fv.len() && 0 <= m < fv[k].len() && (k < i || (k == i && m < 0))
                    && #[trigger] fv[k][m] == y;
            assert(fv[k][m] == y);
        }
        assert(spec_all_found(fv) =~= found_before(fv, i as int, 0));
        lemma_increasing_no_duplicates(out.deep_view());
    }
    out
}

/// The tags of all scripts `files[i][j]` found under the directories
/// `prefixes[i]`.
pub open spec fn spec_script_tags(prefixes: Seq<Seq<Seq<char>>>, files: Seq<Seq<Seq<Seq<char>>>>) -> Set<
    Seq<char>,
> {
    Set::new(
        |t: Seq<char>|
            exists|i: int, j: int|
                0 <= i < prefixes.len() && 0 <= i < files.len() && 0 <= j < files[i].len()
                    && #[trigger] spec_tags_for_path(prefixes[i], files[i][j]).contains(t),
    )
}

/// The tags of all scripts `files[i]` found under the directories
/// `prefixes[i]`, each once.
pub fn script_tags(prefixes: &Vec<Vec<String>>, files: &Vec<Vec<Vec<String>>>) -> (r: Vec<String>)
    requires
        prefixes@.len() == files@.len(),
    ensures
        r.deep_view().no_duplicates(),
        r.deep_view().to_set() == spec_script_tags(prefixes.deep_view(), files.deep_view()),
{
    let ghost pv = prefixes.deep_view();
    let ghost fv = files.deep_view();
    let mut out: Vec<String> = Vec::new();
    let mut i: usize = 0;
    while i < files.len()
        invariant
            prefixes@.len() == files@.len(),
            pv == prefixes.deep_view(),
            fv == files.deep_view(),
            i <= files@.len(),
            out.deep_view().no_duplicates(),
            forall|t: Seq<char>|
                out.deep_view().to_set().contains(t) <==> exists|a: int, b: int|
                    0 <= a < i && 0 <= b < fv[a].len() && #[trigger] spec_tags_for_path(
                        pv[a],
                        fv[a][b],
                    ).contains(t),
        decreases files@.len() - i,
    {
        let mut j: usize = 0;
        while j < files[i].len()
            invariant
                prefixes@.len() == files@.len(),
                pv == prefixes.deep_view(),
                fv == files.deep_view(),
                i < files@.len(),
                j <= files@[i as int]@.len(),
                out.deep_view().no_duplicates(),
                forall|t: Seq<char>|
                    out.deep_view().to_set().contains(t) <==> (exists|a: int, b: int|
                        0 <= a < i && 0 <= b < fv[a].len() && #[trigger] spec_tags_for_path(
                            pv[a],
                            fv[a][b],
                        ).contains(t)) || (exists|b: int|
                        0 <= b < j && #[trigger] spec_tags_for_path(pv[i as int], fv[i as int][b]).contains(
                            t,
                        )),
            decreases files@[i as int]@.len() - j,
        {
            let tags = get_tags_for_path(&prefixes[i], &files[i][j]);
            assert(prefixes@[i as int].deep_view() == pv[i as int]);
            assert(files@[i as int]@[j as int].deep_view() == fv[i as int][j as int]);
            let ghost before = out.deep_view().to_set();
            insert_all(&mut out, &tags);
            proof {
                assert forall|t: Seq<char>|
                    out.deep_view().to_set().contains(t) <==> (exists|a: int, b: int|
                        0 <= a < i && 0 <= b < fv[a].len() && #[trigger] spec_tags_for_path(
                            pv[a],
                            fv[a][b],
                        ).contains(t)) || (exists|b: int|
                        0 <= b < j + 1 && #[trigger] spec_tags_for_path(pv[i as int], fv[i as int][b]).contains(
                            t,
                        )) by {
                    if tags.deep_view().to_set().contains(t) {
                        assert(spec_tags_for_path(pv[i as int], fv[i as int][j as int]).contains(t));
                    }
                    if spec_tags_for_path(pv[i as int], fv[i as int][j as int]).contains(t) {
                        assert(tags.deep_view().to_set().contains(t));
                    }
                }
            }
            j = j + 1;
        }
        i = i + 1;
        proof {
            assert forall|t: Seq<char>|
                out.deep_view().to_set().contains(t) <==> exists|a: int, b: int|
                    0 <= a < i && 0 <= b < fv[a].len() && #[trigger] spec_tags_for_path(
                        pv[a],
                        fv[a][b],
                    ).contains(t) by {
                if exists|b: int|
                    0 <= b < fv[i - 1].len() && #[trigger] spec_tags_for_path(pv[i - 1], fv[i - 1][b]).contains(t) {
                    let b = choose|b: int|
                        0 <= b < fv[i - 1].len() && #[trigger] spec_tags_for_path(pv[i - 1], fv[i - 1][b]).contains(t);
                    assert(spec_tags_for_path(pv[i - 1], fv[i - 1][b]).contains(t));
                }
            }
        }
    }
    assert(out.deep_view().to_set() =~= spec_script_tags(pv, fv));
    out
}

/// Every script `files[i][j]` lies under its directory `prefixes[i]`.
pub open spec fn all_under_prefix(prefixes: Seq<Seq<Seq<char>>>, files: Seq<Seq<Seq<Seq<char>>>>) -> bool {
    &&& prefixes.len() == files.len()
    &&& forall|i: int, j: int|
        0 <= i < files.len() && 0 <= j < files[i].len() ==> (#[trigger] spec_strip_prefix(
            prefixes[i],
            files[i][j],
        )) is Some
}

/// The path of the script `files[i][j]` relative to its directory.
pub open spec fn rel_of(
    prefixes: Seq<Seq<Seq<char>>>,
    files: Seq<Seq<Seq<Seq<char>>>>,
    i: int,
    j: int,
) -> Seq<Seq<char>> {
    spec_strip_prefix(prefixes[i], files[i][j]).unwrap()
}

/// Each pick names a script that was found.
pub open spec fn picks_valid(files: Seq<Seq<Seq<Seq<char>>>>, sel: Seq<(usize, usize)>) -> bool {
    forall|k: int|
        0 <= k < sel.len() ==> (#[trigger] sel[k]).0 < files.len() && sel[k].1 < files[sel[k].0 as int].len()
}

/// No directory before a pick's directory holds a script at the pick's
/// relative path.
pub open spec fn picks_first(
    prefixes: Seq<Seq<Seq<char>>>,
    files: Seq<Seq<Seq<Seq<char>>>>,
    sel: Seq<(usize, usize)>,
) -> bool {
    forall|k: int, m: int, b: int|
        #![trigger sel[k], rel_of(prefixes, files, m, b)]
        0 <= k < sel.len() && 0 <= m < sel[k].0 && 0 <= b < files[m].len() ==> rel_of(
            prefixes,
            files,
            m,
            b,
        ) != rel_of(prefixes, files, sel[k].0 as int, sel[k].1 as int)
}

/// Every relative path at which some script was found is picked.
pub open spec fn picks_cover(
    prefixes: Seq<Seq<Seq<char>>>,
    files: Seq<Seq<Seq<Seq<char>>>>,
    sel: Seq<(usize, usize)>,
) -> bool {
    forall|i: int, j: int|
        0 <= i < files.len() && 0 <= j < files[i].len() ==> is_picked(
            prefixes,
            files,
            sel,
            #[trigger] rel_of(prefixes, files, i, j),
        )
}

/// Some pick lies at the relative path `rel`.
pub open spec fn is_picked(
    prefixes: Seq<Seq<Seq<char>>>,
    files: Seq<Seq<Seq<Seq<char>>>>,
    sel: Seq<(usize, usize)>,
    rel: Seq<Seq<char>>,
) -> bool {
    exists|k: int| 0 <= k < sel.len() && rel_of(prefixes, files, (#[trigger] sel[k]).0 as int, sel[k].1 as int) == rel
}

/// No relative path is picked twice.
pub open spec fn picks_distinct(
    prefixes: Seq<Seq<Seq<char>>>,
    files: Seq<Seq<Seq<Seq<char>>>>,
    sel: Seq<(usize, usize)>,
) -> bool {
    forall|k: int, l: int|
        0 <= k < l < sel.len() ==> rel_of(prefixes, files, (#[trigger] sel[k]).0 as int, sel[k].1 as int)
            != rel_of(prefixes, files, (#[trigger] sel[l]).0 as int, sel[l].1 as int)
}

/// `sel` picks, for every relative path that some directory holds a script
/// at, exactly one script: the one in the first directory that holds it.
pub open spec fn is_override_selection(
    prefixes: Seq<Seq<Seq<char>>>,
    files: Seq<Seq<Seq<Seq<char>>>>,
    sel: Seq<(usize, usize)>,
) -> bool {
    &&& picks_valid(files, sel)
    &&& picks_first(prefixes, files, sel)
    &&& picks_cover(prefixes, files, sel)
    &&& picks_distinct(prefixes, files, sel)
}

/// Which scripts run: of the scripts found at the same path relative to
/// their directories, the one in the first directory (an override
/// directory listed first shadows the stock one). Each pick is a pair of
/// the directory's index and the script's index in `files` of it.
pub fn select_scripts(prefixes: &Vec<Vec<String>>, files: &Vec<Vec<Vec<String>>>) -> (r: Vec<
    (usize, usize),
>)
    requires
        all_under_prefix(prefixes.deep_view(), files.deep_view()),
    ensures
        is_override_selection(prefixes.deep_view(), files.deep_view(), r@),
{
    let ghost pv = prefixes.deep_view();
    let ghost fv = files.deep_view();
    let mut sel: Vec<(usize, usize)> = Vec::new();
    let mut rels: Vec<Vec<String>> = Vec::new();
    let mut i: usize = 0;
    while i < files.len()
        invariant
            pv == prefixes.deep_view(),
            fv == files.deep_view(),
            all_under_prefix(pv, fv),
            i <= fv.len(),
            sel@.len() == rels@.len(),
            forall|k: int| 0 <= k < sel@.len() ==> (#[trigger] sel@[k]).0 < i && sel@[k].1 < fv[sel@[k].0 as int].len(),
            forall|k: int| 0 <= k < sel@.len() ==> (#[trigger] rels.deep_view()[k]) == rel_of(pv, fv, sel@[k].0 as int, sel@[k].1 as int),
            forall|k: int, m: int, b: int|
                #![trigger rels.deep_view()[k], rel_of(pv, fv, m, b)]
                0 <= k < sel@.len() && 0 <= m < sel@[k].0 && 0 <= b < fv[m].len() ==> rel_of(pv, fv, m, b)
                    != rels.deep_view()[k],
            forall|a: int, b: int|
                0 <= a < i && 0 <= b < fv[a].len() ==> rels.deep_view().contains(#[trigger] rel_of(pv, fv, a, b)),
            rels.deep_view().no_duplicates(),
        decreases fv.len() - i,
    {
        let mut j: usize = 0;
        while j < files[i].len()
            invariant
                pv == prefixes.deep_view(),
                fv == files.deep_view(),
                all_under_prefix(pv, fv),
                i < fv.len(),
                j <= fv[i as int].len(),
                sel@.len() == rels@.len(),
                forall|k: int| 0 <= k < sel@.len() ==> (#[trigger] sel@[k]).0 <= i && sel@[k].1 < fv[sel@[k].0 as int].len(),
                forall|k: int| 0 <= k < sel@.len() ==> (#[trigger] rels.deep_view()[k]) == rel_of(pv, fv, sel@[k].0 as int, sel@[k].1 as int),
                forall|k: int, m: int, b: int|
                    #![trigger rels.deep_view()[k], rel_of(pv, fv, m, b)]
                    0 <= k < sel@.len() && 0 <= m < sel@[k].0 && 0 <= b < fv[m].len() ==> rel_of(pv, fv, m, b)
                        != rels.deep_view()[k],
                forall|a: int, b: int|
                    0 <= a < i && 0 <= b < fv[a].len() ==> rels.deep_view().contains(#[trigger] rel_of(pv, fv, a, b)),
                forall|b: int|
                    0 <= b < j ==> rels.deep_view().contains(#[trigger] rel_of(pv, fv, i as int, b)),
                rels.deep_view().no_duplicates(),
            decreases fv[i as int].len() - j,
        {
            assert(prefixes@[i as int].deep_view() == pv[i as int]);
            assert(files@[i as int]@[j as int].deep_view() == fv[i as int][j as int]);
            assert(spec_strip_prefix(pv[i as int], fv[i as int][j as int]) is Some);
            let rel = match strip_prefix(&prefixes[i], &files[i][j]) {
                Some(r) => r,
                None => {
                    assert(false);
                    Vec::new()
                },
            };
            let ghost rv = rel.deep_view();
            assert(rv == rel_of(pv, fv, i as int, j as int));
            let mut found = false;
            let mut k: usize = 0;
            while k < rels.len()
                invariant
                    k <= rels@.len(),
                    found == exists|q: int| 0 <= q < k && #[trigger] rels.deep_view()[q] == rv,
                    rv == rel.deep_view(),
                decreases rels@.len() - k,
            {
                assert(rels.deep_view()[k as int] == rels@[k as int].deep_view());
                if components_eq(&rels[k], &rel) {
                    found = true;
                }
                k = k + 1;
            }
            if !found {
                let ghost old_rels = rels.deep_view();
                let ghost old_sel = sel@;
                proof {
                    // No earlier directory holds this relative path: it would be among `rels`.
                    assert forall|m: int, b: int| 0 <= m < i && 0 <= b < fv[m].len() implies rel_of(pv, fv, m, b) != rv by {
                        if rel_of(pv, fv, m, b) == rv {
                            assert(old_rels.contains(rel_of(pv, fv, m, b)));
                        }
                    }
                }
                sel.push((i, j));
                rels.push(rel);
                proof {
                    assert(rels.deep_view() =~= old_rels.push(rv));
                    assert forall|a: int, b: int| 0 <= a < rels.deep_view().len() && 0 <= b < rels.deep_view().len() && a != b implies rels.deep_view()[a] != rels.deep_view()[b] by {
                        if a == old_rels.len() {
                            assert(old_rels.contains(old_rels[b]));
                        } else if b == old_rels.len() {
                            assert(old_rels.contains(old_rels[a]));
                        }
                    }
                    assert forall|a: int, b: int| 0 <= a < i && 0 <= b < fv[a].len() implies rels.deep_view().contains(#[trigger] rel_of(pv, fv, a, b)) by {
                        let q = choose|q: int| 0 <= q < old_rels.len() && old_rels[q] == rel_of(pv, fv, a, b);
                        assert(rels.deep_view()[q] == old_rels[q]);
                    }
                    assert forall|b: int| 0 <= b < j + 1 implies rels.deep_view().contains(#[trigger] rel_of(pv, fv, i as int, b)) by {
                        if b == j {
                            assert(rels.deep_view()[old_rels.len() as int] == rv);
                        } else {
                            let q = choose|q: int| 0 <= q < old_rels.len() && old_rels[q] == rel_of(pv, fv, i as int, b);
                            assert(rels.deep_view()[q] == old_rels[q]);
                        }
                    }
                    assert forall|q: int| 0 <= q < sel@.len() implies (#[trigger] rels.deep_view()[q]) == rel_of(pv, fv, sel@[q].0 as int, sel@[q].1 as int) by {
                        if q < old_sel.len() {
                            assert(rels.deep_view()[q] == old_rels[q]);
                            assert(sel@[q] == old_sel[q]);
                        }
                    }
                    assert forall|q: int, m: int, b: int|
                        #![trigger rels.deep_view()[q], rel_of(pv, fv, m, b)]
                        0 <= q < sel@.len() && 0 <= m < sel@[q].0 && 0 <= b < fv[m].len() implies rel_of(pv, fv, m, b)
                            != rels.deep_view()[q] by {
                        if q < old_sel.len() {
                            assert(rels.deep_view()[q] == old_rels[q]);
                            assert(sel@[q] == old_sel[q]);
                        }
                    }
                }
            } else {
                proof {
                    let q = choose|q: int| 0 <= q < k && #[trigger] rels.deep_view()[q] == rv;
                    assert(rels.deep_view().contains(rv));
                }
            }
            j = j + 1;
        }
        i = i + 1;
    }
    proof {
        let rv = rels.deep_view();
        assert(i == fv.len());
        assert forall|a: int, b: int| 0 <= a < fv.len() && 0 <= b < fv[a].len() implies is_picked(pv, fv, sel@, #[trigger] rel_of(pv, fv, a, b)) by {
            assert(rv.contains(rel_of(pv, fv, a, b)));
            let q = choose|q: int| 0 <= q < rv.len() && rv[q] == rel_of(pv, fv, a, b);
            assert(rv[q] == rel_of(pv, fv, sel@[q].0 as int, sel@[q].1 as int));
        }
        assert forall|k: int, l: int| 0 <= k < l < sel@.len() implies rel_of(pv, fv, (#[trigger] sel@[k]).0 as int, sel@[k].1 as int)
            != rel_of(pv, fv, (#[trigger] sel@[l]).0 as int, sel@[l].1 as int) by {
            assert(rv[k] == rel_of(pv, fv, sel@[k].0 as int, sel@[k].1 as int));
            assert(rv[l] == rel_of(pv, fv, sel@[l].0 as int, sel@[l].1 as int));
        }
        assert forall|k: int, m: int, b: int|
            #![trigger sel@[k], rel_of(pv, fv, m, b)]
            0 <= k < sel@.len() && 0 <= m < sel@[k].0 && 0 <= b < fv[m].len() implies rel_of(pv, fv, m, b)
                != rel_of(pv, fv, sel@[k].0 as int, sel@[k].1 as int) by {
            assert(rv[k] == rel_of(pv, fv, sel@[k].0 as int, sel@[k].1 as int));
        }
        assert forall|k: int| 0 <= k < sel@.len() implies (#[trigger] sel@[k]).0 < fv.len() && sel@[k].1 < fv[sel@[k].0 as int].len() by {}
        assert(picks_valid(fv, sel@));
        assert(picks_first(pv, fv, sel@));
        assert(picks_cover(pv, fv, sel@));
        assert(picks_distinct(pv, fv, sel@));
    }
    sel
}

} // verus!
