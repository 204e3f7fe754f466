use vstd::prelude::*;

use crate::error::Error;
use crate::fstree::{entry_named, find_entry, has_entry, is_junk, junk_name, wf_tree, FsEntry, FsTree};
use crate::strings::{str_eq, string_eq};

verus! {

broadcast use vstd::std_specs::vec::group_vec_axioms;

/// What one structural comparison can come to.  `Unreadable` stands for the
/// walk running into a non-directory where a directory had to be listed.
#[derive(PartialEq, Eq, Structural, Clone, Copy, Debug)]
pub enum Outcome {
    Matched,
    Differs,
    Unreadable,
}

/// A segment is kept by the path splitter unless it is empty or `.`.
pub open spec fn keep_segment(cur: Seq<char>) -> Seq<Seq<char>> {
    if cur.len() == 0 || cur == "."@ {
        Seq::empty()
    } else {
        seq![cur]
    }
}

/// One pass of splitting a relative path on `/`, from position `i`, with the
/// segment read so far and the segments already collected.
pub open spec fn split_loop(s: Seq<char>, i: int, cur: Seq<char>, acc: Seq<Seq<char>>) -> Seq<
    Seq<char>,
>
    decreases s.len() - i,
{
    if i < 0 || i >= s.len() {
        acc + keep_segment(cur)
    } else if s[i] == '/' {
        split_loop(s, i + 1, Seq::empty(), acc + keep_segment(cur))
    } else {
        split_loop(s, i + 1, cur.push(s[i]), acc)
    }
}

/// A relative path's components: split on `/`, dropping empty and `.`
/// segments, as the host path type does when comparing paths.
pub open spec fn split_path_spec(s: Seq<char>) -> Seq<Seq<char>> {
    split_loop(s, 0, Seq::empty(), Seq::empty())
}

/// Append the segment `st[from..to]` to `acc` if the splitter keeps it.
fn push_segment(acc: &mut Vec<String>, st: &str, from: usize, to: usize)
    requires
        from <= to <= st@.len(),
    ensures
        final(acc).deep_view() == old(acc).deep_view() + keep_segment(
            st@.subrange(from as int, to as int),
        ),
{
    let seg = st.substring_char(from, to);
    if seg.unicode_len() == 0 || str_eq(seg, ".") {
        proof {
            assert(acc.deep_view() =~= acc.deep_view() + keep_segment(
                st@.subrange(from as int, to as int),
            ));
        }
    } else {
        let ghost dv = acc.deep_view();
        acc.push(seg.to_owned());
        proof {
            assert(acc.deep_view() =~= dv + keep_segment(st@.subrange(from as int, to as int)));
        }
    }
}

/// Split a relative path into its components.
pub fn split_path(s: &String) -> (r: Vec<String>)
    ensures
        r.deep_view() == split_path_spec(s@),
{
    let st = s.as_str();
    let n = st.unicode_len();
    let mut acc: Vec<String> = Vec::new();
    let mut seg_start: usize = 0;
    let mut i: usize = 0;
    proof {
        assert(s@.subrange(0, 0) =~= Seq::<char>::empty());
        assert(acc.deep_view() =~= Seq::<Seq<char>>::empty());
    }
    while i < n
        invariant
            st@ == s@,
            n == s@.len(),
            seg_start <= i <= n,
            split_path_spec(s@) == split_loop(
                s@,
                i as int,
                s@.subrange(seg_start as int, i as int),
                acc.deep_view(),
            ),
        decreases n - i,
    {
        let ghost cur = s@.subrange(seg_start as int, i as int);
        let ch = st.get_char(i);
        if ch == '/' {
            push_segment(&mut acc, st, seg_start, i);
            seg_start = i + 1;
            proof {
                assert(s@.subrange(seg_start as int, i + 1 as int) =~= Seq::<char>::empty());
            }
        } else {
            proof {
                assert(s@.subrange(seg_start as int, i + 1 as int) =~= cur.push(s@[i as int]));
            }
        }
        i = i + 1;
    }
    push_segment(&mut acc, st, seg_start, n);
    acc
}

/// Each optional-file path, split into components.
pub open spec fn split_all_spec(files: Seq<Seq<char>>) -> Seq<Seq<Seq<char>>> {
    files.map_values(|f: Seq<char>| split_path_spec(f))
}

/// Split every optional-file path.
pub fn split_all(files: &Vec<String>) -> (r: Vec<Vec<String>>)
    ensures
        r.deep_view() == split_all_spec(files.deep_view()),
{
    let mut r: Vec<Vec<String>> = Vec::new();
    let mut i: usize = 0;
    while i < files.len()
        invariant
            i <= files@.len(),
            r.deep_view().len() == i,
            forall|j: int|
                0 <= j < i ==> r.deep_view()[j] == split_path_spec(files.deep_view()[j]),
        decreases files@.len() - i,
    {
        proof {
            assert(files.deep_view()[i as int] == files@[i as int]@);
        }
        let ghost dv = r.deep_view();
        let parts = split_path(&files[i]);
        r.push(parts);
        proof {
            assert(r.deep_view() =~= dv.push(split_path_spec(files.deep_view()[i as int])));
        }
        i = i + 1;
    }
    proof {
        assert(r.deep_view() =~= split_all_spec(files.deep_view()));
    }
    r
}

/// Whether the relative path `p` is one of the declared optional files.
pub open spec fn opt_contains(opts: Seq<Seq<Seq<char>>>, p: Seq<Seq<char>>) -> bool {
    exists|k: int| 0 <= k < opts.len() && opts[k] == p
}

/// A template entry must be present in the candidate only if it is neither
/// OS junk nor declared optional at its relative path.
pub open spec fn required_path(
    name: Seq<char>,
    opts: Seq<Seq<Seq<char>>>,
    rel: Seq<Seq<char>>,
) -> bool {
    !is_junk(name) && !opt_contains(opts, rel.push(name))
}

/// Whether `o` spells the components of `rel` followed by `name`.
fn is_rel_child(o: &Vec<String>, rel: &Vec<String>, name: &String) -> (r: bool)
    ensures
        r == (o.deep_view() == rel.deep_view().push(name@)),
{
    proof {
        assert(o.deep_view().len() == o@.len());
        assert(rel.deep_view().len() == rel@.len());
    }
    if o.len() == 0 || o.len() - 1 != rel.len() {
        return false;
    }
    let mut j: usize = 0;
    while j < rel.len()
        invariant
            o@.len() == rel@.len() + 1,
            j <= rel@.len(),
            forall|k: int| 0 <= k < j ==> o.deep_view()[k] == rel.deep_view()[k],
        decreases rel@.len() - j,
    {
        if !string_eq(&o[j], &rel[j]) {
            proof {
                assert(o.deep_view()[j as int] == o@[j as int]@);
                assert(rel.deep_view()[j as int] == rel@[j as int]@);
                assert(rel.deep_view().push(name@)[j as int] == rel.deep_view()[j as int]);
            }
            return false;
        }
        j = j + 1;
    }
    if string_eq(&o[rel.len()], name) {
        proof {
            assert(o.deep_view() =~= rel.deep_view().push(name@));
        }
        true
    } else {
        proof {
            assert(o.deep_view()[rel@.len() as int] == o@[rel@.len() as int]@);
            assert(rel.deep_view().push(name@)[rel@.len() as int] == name@);
        }
        false
    }
}

/// Whether `rel` extended by `name` is a declared optional file.
fn opt_contains_child(opts: &Vec<Vec<String>>, rel: &Vec<String>, name: &String) -> (r: bool)
    ensures
        r == opt_contains(opts.deep_view(), rel.deep_view().push(name@)),
{
    let mut k: usize = 0;
    while k < opts.len()
        invariant
            k <= opts@.len(),
            forall|m: int|
                0 <= m < k ==> opts.deep_view()[m] != rel.deep_view().push(name@),
        decreases opts@.len() - k,
    {
        if is_rel_child(&opts[k], rel, name) {
            proof {
                assert(opts.deep_view()[k as int] == opts@[k as int].deep_view());
            }
            return true;
        }
        proof {
            assert(opts.deep_view()[k as int] == opts@[k as int].deep_view());
        }
        k = k + 1;
    }
    false
}

/// Whether the template entry named `name` must exist in the candidate.
fn required_exec(name: &String, opts: &Vec<Vec<String>>, rel: &Vec<String>) -> (r: bool)
    ensures
        r == required_path(name@, opts.deep_view(), rel.deep_view()),
{
    !junk_name(name) && !opt_contains_child(opts, rel, name)
}

/// A level is consistent when every required template entry has a
/// same-named candidate entry; the candidate may hold extra entries.
pub open spec fn level_ok(
    tes: Seq<FsEntry>,
    ces: Seq<FsEntry>,
    opts: Seq<Seq<Seq<char>>>,
    rel: Seq<Seq<char>>,
) -> bool {
    forall|i: int|
        0 <= i < tes.len() && required_path(#[trigger] tes[i].name@, opts, rel) ==> has_entry(
            ces,
            tes[i].name@,
        )
}

/// Structural comparison of a template tree against a candidate tree.
/// Both roots must be directories; each level must be consistent; required
/// template subdirectories are compared recursively against the same-named
/// candidate entries.  Leaf files are never content-compared.
pub open spec fn cmp_tree(
    t: FsTree,
    c: FsTree,
    opts: Seq<Seq<Seq<char>>>,
    rel: Seq<Seq<char>>,
) -> Outcome
    decreases t, 0int,
{
    match t {
        FsTree::File => Outcome::Unreadable,
        FsTree::Dir(tes) => match c {
            FsTree::File => Outcome::Unreadable,
            FsTree::Dir(ces) => {
                if !level_ok(tes@, ces@, opts, rel) {
                    Outcome::Differs
                } else {
                    cmp_children(tes, ces@, opts, rel, 0)
                }
            },
        },
    }
}

/// Compare the required subdirectories of `tes`, from index `i` on, against
/// their same-named candidate entries; the first outcome other than
/// `Matched` wins.
pub open spec fn cmp_children(
    tes: Vec<FsEntry>,
    ces: Seq<FsEntry>,
    opts: Seq<Seq<Seq<char>>>,
    rel: Seq<Seq<char>>,
    i: int,
) -> Outcome
    decreases tes, tes@.len() - i,
{
    if i < 0 || i >= tes@.len() {
        Outcome::Matched
    } else {
        let e = tes@[i];
        let head = if required_path(e.name@, opts, rel) && e.tree is Dir && has_entry(
            ces,
            e.name@,
        ) {
            cmp_tree(e.tree, entry_named(ces, e.name@).tree, opts, rel.push(e.name@))
        } else {
            Outcome::Matched
        };
        if head != Outcome::Matched {
            head
        } else {
            cmp_children(tes, ces, opts, rel, i + 1)
        }
    }
}

/// The executable mirror of `cmp_tree`.
fn cmp_tree_exec(t: &FsTree, c: &FsTree, opts: &Vec<Vec<String>>, rel: &mut Vec<String>) -> (r:
    Outcome)
    requires
        wf_tree(*c),
    ensures
        r == cmp_tree(*t, *c, opts.deep_view(), old(rel).deep_view()),
        final(rel).deep_view() == old(rel).deep_view(),
    decreases *t, 0int,
{
    match t {
        FsTree::File => Outcome::Unreadable,
        FsTree::Dir(tes) => match c {
            FsTree::File => Outcome::Unreadable,
            FsTree::Dir(ces) => {
                let mut i: usize = 0;
                while i < tes.len()
                    invariant
                        i <= tes@.len(),
                        forall|j: int|
                            0 <= j < i && required_path(
                                #[trigger] tes@[j].name@,
                                opts.deep_view(),
                                rel.deep_view(),
                            ) ==> has_entry(ces@, tes@[j].name@),
                        wf_tree(*c),
                        *t == FsTree::Dir(*tes),
                        *c == FsTree::Dir(*ces),
                        rel.deep_view() == old(rel).deep_view(),
                    decreases tes@.len() - i,
                {
                    if required_exec(&tes[i].name, opts, rel) {
                        if find_entry(ces, &tes[i].name).is_none() {
                            proof {
                                assert(required_path(
                                    tes@[i as int].name@,
                                    opts.deep_view(),
                                    rel.deep_view(),
                                ) && !has_entry(ces@, tes@[i as int].name@));
                                assert(!level_ok(tes@, ces@, opts.deep_view(), rel.deep_view()));
                            }
                            return Outcome::Differs;
                        }
                    }
                    i = i + 1;
                }
                assert(level_ok(tes@, ces@, opts.deep_view(), rel.deep_view()));
                cmp_children_exec(tes, ces, opts, rel, 0)
            },
        },
    }
}

/// The executable mirror of `cmp_children`.
fn cmp_children_exec(
    tes: &Vec<FsEntry>,
    ces: &Vec<FsEntry>,
    opts: &Vec<Vec<String>>,
    rel: &mut Vec<String>,
    i: usize,
) -> (r: Outcome)
    requires
        wf_tree(FsTree::Dir(*ces)),
        i <= tes@.len(),
    ensures
        r == cmp_children(*tes, ces@, opts.deep_view(), old(rel).deep_view(), i as int),
        final(rel).deep_view() == old(rel).deep_view(),
    decreases *tes, tes@.len() - i,
{
    if i >= tes.len() {
        return Outcome::Matched;
    }
    let required = required_exec(&tes[i].name, opts, rel);
    let mut head = Outcome::Matched;
    if required {
        let is_dir = match &tes[i].tree {
            FsTree::Dir(_) => true,
            FsTree::File => false,
        };
        if is_dir {
            match find_entry(ces, &tes[i].name) {
                Some(ce) => {
                    let ghost dv = rel.deep_view();
                    rel.push(tes[i].name.clone());
                    proof {
                        assert(rel.deep_view() =~= dv.push(tes@[i as int].name@));
                    }
                    head = cmp_tree_exec(&tes[i].tree, &ce.tree, opts, rel);
                    let ghost mid: Seq<String> = rel@;
                    let ghost mid_dv = rel.deep_view();
                    let _ = rel.pop();
                    proof {
                        assert(mid.len() == mid_dv.len());
                        assert forall|k: int| 0 <= k < dv.len() implies rel.deep_view()[k]
                            == dv[k] by {
                            assert(rel@[k] == mid[k]);
                            assert(mid[k]@ == mid_dv[k]);
                            assert(mid_dv[k] == dv[k]);
                        }
                        assert(rel.deep_view() =~= dv);
                    }
                },
                None => {},
            }
        }
    }
    if head != Outcome::Matched {
        return head;
    }
    cmp_children_exec(tes, ces, opts, rel, i + 1)
}

/// Compare the contents of two directory snapshots: `Ok(true)` exactly when
/// every required template entry, at every level, exists in the candidate
/// and every required template subdirectory matches recursively; `Ok(false)`
/// exactly when some level is inconsistent; `Err` exactly when the walk runs
/// into a non-directory where a directory had to be listed.
pub fn compare_dir(dir: &FsTree, other: &FsTree, optional_files: &Vec<String>) -> (r: Result<
    bool,
    Error,
>)
    requires
        wf_tree(*other),
    ensures
        ({
            let out = cmp_tree(
                *dir,
                *other,
                split_all_spec(optional_files.deep_view()),
                Seq::empty(),
            );
            match r {
                Ok(b) => out != Outcome::Unreadable && b == (out == Outcome::Matched),
                Err(e) => out == Outcome::Unreadable && e == (Error::ReadFailure),
            }
        }),
{
    let opts = split_all(optional_files);
    let mut rel: Vec<String> = Vec::new();
    proof {
        assert(rel.deep_view() =~= Seq::<Seq<char>>::empty());
    }
    let out = cmp_tree_exec(dir, other, &opts, &mut rel);
    match out {
        Outcome::Matched => Ok(true),
        Outcome::Differs => Ok(false),
        Outcome::Unreadable => Err(Error::ReadFailure),
    }
}

/// `cmp_children` reads its template entries only through their view.
proof fn lemma_cmp_children_view(
    v1: Vec<FsEntry>,
    v2: Vec<FsEntry>,
    ces: Seq<FsEntry>,
    opts: Seq<Seq<Seq<char>>>,
    rel: Seq<Seq<char>>,
    m: int,
)
    requires
        v1@ == v2@,
    ensures
        cmp_children(v1, ces, opts, rel, m) == cmp_children(v2, ces, opts, rel, m),
    decreases v1@.len() - m,
{
    if m < 0 || m >= v1@.len() {
    } else {
        lemma_cmp_children_view(v1, v2, ces, opts, rel, m + 1);
    }
}

/// Walking the template entries of `v2` from `m` on equals walking those of
/// `v1` from the matching position, when `v1` is `v2` without the entry at
/// `i` and that entry is not required.
proof fn lemma_children_skip(
    v1: Vec<FsEntry>,
    v2: Vec<FsEntry>,
    i: int,
    ces: Seq<FsEntry>,
    opts: Seq<Seq<Seq<char>>>,
    rel: Seq<Seq<char>>,
    m: int,
)
    requires
        0 <= i < v2@.len(),
        v1@ == v2@.remove(i),
        !required_path(v2@[i].name@, opts, rel),
        0 <= m,
    ensures
        cmp_children(v2, ces, opts, rel, m) == cmp_children(
            v1,
            ces,
            opts,
            rel,
            if m <= i {
                m
            } else {
                m - 1
            },
        ),
    decreases v2@.len() - m,
{
    if m >= v2@.len() {
        assert(v1@.len() == v2@.len() - 1);
    } else if m == i {
        lemma_children_skip(v1, v2, i, ces, opts, rel, m + 1);
    } else if m < i {
        assert(v1@[m] == v2@.remove(i)[m]);
        assert(v1@[m] == v2@[m]);
        lemma_children_skip(v1, v2, i, ces, opts, rel, m + 1);
    } else {
        assert(v1@[m - 1] == v2@.remove(i)[m - 1]);
        assert(v1@[m - 1] == v2@[m]);
        lemma_children_skip(v1, v2, i, ces, opts, rel, m + 1);
    }
}

/// A template entry that is not required — OS junk, or declared optional at
/// its relative path — never affects the comparison outcome: dropping it
/// from the template directory leaves the verdict unchanged, and in
/// particular it is never recursed into, even if it is a directory.
pub proof fn lemma_unrequired_template_entry_ignored(
    t1: FsTree,
    t2: FsTree,
    i: int,
    c: FsTree,
    opts: Seq<Seq<Seq<char>>>,
    rel: Seq<Seq<char>>,
)
    requires
        t1 is Dir,
        t2 is Dir,
        ({
            let es2 = t2->Dir_0@;
            &&& 0 <= i < es2.len()
            &&& t1->Dir_0@ == es2.remove(i)
            &&& !required_path(es2[i].name@, opts, rel)
        }),
    ensures
        cmp_tree(t1, c, opts, rel) == cmp_tree(t2, c, opts, rel),
{
    let es1 = t1->Dir_0@;
    let es2 = t2->Dir_0@;
    match c {
        FsTree::File => {},
        FsTree::Dir(ces) => {
            assert(level_ok(es1, ces@, opts, rel) == level_ok(es2, ces@, opts, rel)) by {
                if level_ok(es1, ces@, opts, rel) {
                    assert forall|m: int|
                        0 <= m < es2.len() && required_path(
                            #[trigger] es2[m].name@,
                            opts,
                            rel,
                        ) implies has_entry(ces@, es2[m].name@) by {
                        if m < i {
                            assert(es1[m] == es2.remove(i)[m]);
                        } else if m > i {
                            assert(es1[m - 1] == es2.remove(i)[m - 1]);
                        }
                    }
                }
                if level_ok(es2, ces@, opts, rel) {
                    assert forall|m: int|
                        0 <= m < es1.len() && required_path(
                            #[trigger] es1[m].name@,
                            opts,
                            rel,
                        ) implies has_entry(ces@, es1[m].name@) by {
                        if m < i {
                            assert(es1[m] == es2[m]);
                        } else {
                            assert(es1[m] == es2[m + 1]);
                        }
                    }
                }
            }
            if level_ok(es2, ces@, opts, rel) {
                match (t1, t2) {
                    (FsTree::Dir(v1), FsTree::Dir(v2)) => {
                        lemma_children_skip(v1, v2, i, ces@, opts, rel, 0);
                    },
                    _ => {},
                }
            }
        },
    }
}

/// A junk-named entry present only in the template never affects the
/// comparison outcome.
pub proof fn lemma_junk_template_entry_ignored(
    t1: FsTree,
    t2: FsTree,
    i: int,
    c: FsTree,
    opts: Seq<Seq<Seq<char>>>,
    rel: Seq<Seq<char>>,
)
    requires
        t1 is Dir,
        t2 is Dir,
        ({
            let es2 = t2->Dir_0@;
            &&& 0 <= i < es2.len()
            &&& t1->Dir_0@ == es2.remove(i)
            &&& is_junk(es2[i].name@)
        }),
    ensures
        cmp_tree(t1, c, opts, rel) == cmp_tree(t2, c, opts, rel),
{
    lemma_unrequired_template_entry_ignored(t1, t2, i, c, opts, rel);
}

/// A candidate entry the template never asks after — one whose name is not
/// required (for instance because its relative path is declared optional),
/// or an extra file the template does not list — may be present or absent
/// without affecting the comparison outcome.
pub proof fn lemma_unrequired_candidate_entry_ignored(
    t: FsTree,
    c1: FsTree,
    c2: FsTree,
    i: int,
    opts: Seq<Seq<Seq<char>>>,
    rel: Seq<Seq<char>>,
)
    requires
        c1 is Dir,
        c2 is Dir,
        ({
            let ces2 = c2->Dir_0@;
            &&& 0 <= i < ces2.len()
            &&& c1->Dir_0@ == ces2.remove(i)
            &&& (!required_path(ces2[i].name@, opts, rel) || (t is Dir && !has_entry(
                t->Dir_0@,
                ces2[i].name@,
            )))
            &&& forall|a: int, b: int| 0 <= a < b < ces2.len() ==> ces2[a].name@ != ces2[b].name@
        }),
    ensures
        cmp_tree(t, c1, opts, rel) == cmp_tree(t, c2, opts, rel),
{
    let ces1 = c1->Dir_0@;
    let ces2 = c2->Dir_0@;
    let n = ces2[i].name@;
    assert forall|q: Seq<char>| q != n implies has_entry(ces1, q) == has_entry(ces2, q) && (
    has_entry(ces2, q) ==> entry_named(ces1, q) == entry_named(ces2, q)) by {
        if has_entry(ces1, q) {
            let x = choose|x: int| 0 <= x < ces1.len() && #[trigger] ces1[x].name@ == q;
            if x < i {
                assert(ces1[x] == ces2.remove(i)[x]);
                assert(ces2[x].name@ == q);
            } else {
                assert(ces1[x] == ces2.remove(i)[x]);
                assert(ces2[x + 1].name@ == q);
            }
        }
        if has_entry(ces2, q) {
            let x = choose|x: int| 0 <= x < ces2.len() && #[trigger] ces2[x].name@ == q;
            assert(x != i);
            if x < i {
                assert(ces1[x] == ces2.remove(i)[x]);
                assert(ces1[x].name@ == q);
            } else {
                assert(ces1[x - 1] == ces2.remove(i)[x - 1]);
                assert(ces1[x - 1].name@ == q);
            }
            let y1 = choose|y: int| 0 <= y < ces1.len() && #[trigger] ces1[y].name@ == q;
            let y2 = choose|y: int| 0 <= y < ces2.len() && #[trigger] ces2[y].name@ == q;
            assert(y2 == x);
            if y1 < i {
                assert(ces1[y1] == ces2.remove(i)[y1]);
                assert(ces2[y1].name@ == q);
                assert(y2 == y1);
                assert(entry_named(ces1, q) == entry_named(ces2, q));
            } else {
                assert(ces1[y1] == ces2.remove(i)[y1]);
                assert(ces2[y1 + 1].name@ == q);
                assert(y2 == y1 + 1);
                assert(entry_named(ces1, q) == entry_named(ces2, q));
            }
        }
    }
    match t {
        FsTree::File => {},
        FsTree::Dir(tes) => {
            assert(level_ok(tes@, ces1, opts, rel) == level_ok(tes@, ces2, opts, rel)) by {
                if level_ok(tes@, ces1, opts, rel) {
                    assert forall|m: int|
                        0 <= m < tes@.len() && required_path(
                            #[trigger] tes@[m].name@,
                            opts,
                            rel,
                        ) implies has_entry(ces2, tes@[m].name@) by {
                        assert(tes@[m].name@ != n) by {
                            if tes@[m].name@ == n {
                                assert(has_entry(tes@, n));
                            }
                        }
                    }
                }
                if level_ok(tes@, ces2, opts, rel) {
                    assert forall|m: int|
                        0 <= m < tes@.len() && required_path(
                            #[trigger] tes@[m].name@,
                            opts,
                            rel,
                        ) implies has_entry(ces1, tes@[m].name@) by {
                        assert(tes@[m].name@ != n) by {
                            if tes@[m].name@ == n {
                                assert(has_entry(tes@, n));
                            }
                        }
                    }
                }
            }
            if level_ok(tes@, ces2, opts, rel) {
                lemma_children_candidates(t, tes, ces1, ces2, n, opts, rel, 0);
            }
        },
    }
}

/// Walking the template entries against two candidate listings that agree
/// on every name other than `n`, where `n` is not required, gives the same
/// outcome.
proof fn lemma_children_candidates(
    t: FsTree,
    tes: Vec<FsEntry>,
    ces1: Seq<FsEntry>,
    ces2: Seq<FsEntry>,
    n: Seq<char>,
    opts: Seq<Seq<Seq<char>>>,
    rel: Seq<Seq<char>>,
    m: int,
)
    requires
        t == FsTree::Dir(tes),
        !required_path(n, opts, rel) || !has_entry(tes@, n),
        forall|q: Seq<char>|
            q != n ==> #[trigger] has_entry(ces1, q) == has_entry(ces2, q) && (has_entry(ces2, q)
                ==> entry_named(ces1, q) == entry_named(ces2, q)),
    ensures
        cmp_children(tes, ces1, opts, rel, m) == cmp_children(tes, ces2, opts, rel, m),
    decreases tes@.len() - m,
{
    if m < 0 || m >= tes@.len() {
    } else {
        let e = tes@[m];
        if required_path(e.name@, opts, rel) {
            assert(e.name@ != n) by {
                if e.name@ == n {
                    assert(has_entry(tes@, n));
                }
            }
            assert(has_entry(ces1, e.name@) == has_entry(ces2, e.name@));
        }
        lemma_children_candidates(t, tes, ces1, ces2, n, opts, rel, m + 1);
    }
}

} // verus!
