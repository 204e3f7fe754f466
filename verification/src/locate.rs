use vstd::prelude::*;

use crate::compare::{cmp_tree, compare_dir, split_all_spec, Outcome};
use crate::context::{
    has_template, paths_distinct, template_idx, wf_config, Config, Context, TemplateEntry,
};
use crate::error::Error;
use crate::fstree::{wf_tree, FsTree};
use crate::path::AbsPath;
use crate::strings::string_eq;

verus! {

broadcast use vstd::std_specs::vec::group_vec_axioms;

/// One directory visited by the ancestor walk: its absolute path and a
/// snapshot of its structure.
pub struct Ancestor {
    pub path: AbsPath,
    pub tree: FsTree,
}

/// One template's asset directory, as found on disk.
pub struct AssetEntry {
    pub name: String,
    pub tree: FsTree,
}

/// The template asset directories present on disk, by template name.
/// A template whose asset directory is missing has no entry.
pub struct Assets {
    pub entries: Vec<AssetEntry>,
}

/// Asset names are unique, and each asset snapshot is well formed.
pub open spec fn wf_assets(assets: Assets) -> bool {
    &&& forall|i: int, j: int|
        0 <= i < j < assets.entries@.len() ==> assets.entries@[i].name@ != assets.entries@[j].name@
    &&& forall|i: int| 0 <= i < assets.entries@.len() ==> wf_tree(#[trigger] assets.entries@[i].tree)
}

/// The visited directories are pairwise distinct, and each snapshot is well
/// formed.
pub open spec fn wf_ancestors(ancs: Seq<Ancestor>) -> bool {
    &&& forall|i: int, j: int| 0 <= i < j < ancs.len() ==> ancs[i].path@ != ancs[j].path@
    &&& forall|i: int| 0 <= i < ancs.len() ==> wf_tree(#[trigger] ancs[i].tree)
}

/// Whether an asset directory exists for this template name.
pub open spec fn has_asset(es: Seq<AssetEntry>, name: Seq<char>) -> bool {
    exists|i: int| 0 <= i < es.len() && #[trigger] es[i].name@ == name
}

/// The asset snapshot of this template name; meaningful when names are
/// unique and `has_asset` holds.
pub open spec fn asset_named(es: Seq<AssetEntry>, name: Seq<char>) -> FsTree {
    es[choose|i: int| 0 <= i < es.len() && #[trigger] es[i].name@ == name].tree
}

/// Find the asset entry of this template name.
pub fn find_asset<'a>(es: &'a Vec<AssetEntry>, name: &String) -> (r: Option<&'a AssetEntry>)
    requires
        forall|i: int, j: int| 0 <= i < j < es@.len() ==> es@[i].name@ != es@[j].name@,
    ensures
        match r {
            Some(a) => has_asset(es@, name@) && a.tree == asset_named(es@, name@),
            None => !has_asset(es@, name@),
        },
{
    let mut i: usize = 0;
    while i < es.len()
        invariant
            i <= es@.len(),
            forall|j: int| 0 <= j < i ==> es@[j].name@ != name@,
            forall|i: int, j: int| 0 <= i < j < es@.len() ==> es@[i].name@ != es@[j].name@,
        decreases es@.len() - i,
    {
        if string_eq(&es[i].name, name) {
            proof {
                let k = choose|k: int| 0 <= k < es@.len() && #[trigger] es@[k].name@ == name@;
                assert(es@[k].name@ == es@[i as int].name@);
                assert(k == i as int);
            }
            return Some(&es[i]);
        }
        i = i + 1;
    }
    None
}

/// The structural verdict of holding template `j`'s asset tree against the
/// directory snapshot `tree`, honouring that template's optional files.
pub open spec fn verdict(
    ts: Seq<TemplateEntry>,
    assets: Seq<AssetEntry>,
    j: int,
    tree: FsTree,
) -> Outcome {
    cmp_tree(
        asset_named(assets, ts[j].name@),
        tree,
        split_all_spec(ts[j].project.optional_files.deep_view()),
        Seq::empty(),
    )
}

/// What the cached-route scan of one ancestor comes to, scanning templates
/// from index `j` on: the index of the template whose Route Set holds the
/// path and whose structure still matches; `NotHere` when the scan ran off
/// the end; `Blocked` when a route hit could not be verified (asset missing
/// or unreadable), which abandons this ancestor.
pub enum ScanSpec {
    Found(int),
    NotHere,
    Blocked,
}

/// The cached-route scan of one ancestor: on a Route Set hit the template
/// is verified structurally; a match wins, a structural difference evicts
/// the path and the scan moves on, and anything else abandons the ancestor.
pub open spec fn scan1(
    ts: Seq<TemplateEntry>,
    assets: Seq<AssetEntry>,
    path: Seq<Seq<char>>,
    tree: FsTree,
    j: int,
) -> ScanSpec
    decreases ts.len() - j,
{
    if j < 0 || j >= ts.len() {
        ScanSpec::NotHere
    } else if ts[j].project.routes.deep_view().contains(path) {
        if !has_asset(assets, ts[j].name@) {
            ScanSpec::Blocked
        } else if verdict(ts, assets, j, tree) == Outcome::Matched {
            ScanSpec::Found(j)
        } else if verdict(ts, assets, j, tree) == Outcome::Differs {
            scan1(ts, assets, path, tree, j + 1)
        } else {
            ScanSpec::Blocked
        }
    } else {
        scan1(ts, assets, path, tree, j + 1)
    }
}

/// Whether the scan of this ancestor moves past template `j` to the next.
pub open spec fn scan_moves_past(
    ts: Seq<TemplateEntry>,
    assets: Seq<AssetEntry>,
    path: Seq<Seq<char>>,
    tree: FsTree,
    j: int,
) -> bool {
    if ts[j].project.routes.deep_view().contains(path) {
        has_asset(assets, ts[j].name@) && verdict(ts, assets, j, tree) == Outcome::Differs
    } else {
        true
    }
}

/// Whether the scan of this ancestor reaches template `j`.
pub open spec fn scan_reaches(
    ts: Seq<TemplateEntry>,
    assets: Seq<AssetEntry>,
    path: Seq<Seq<char>>,
    tree: FsTree,
    j: int,
) -> bool
    decreases j,
{
    if j <= 0 {
        true
    } else {
        scan_reaches(ts, assets, path, tree, j - 1) && scan_moves_past(
            ts,
            assets,
            path,
            tree,
            j - 1,
        )
    }
}

/// Whether scanning this ancestor evicts its path from template `j`'s
/// Route Set: the scan reaches `j`, the Route Set holds the path, and the
/// verification against `j`'s asset tree finds a structural difference.
pub open spec fn evicts_at(
    ts: Seq<TemplateEntry>,
    assets: Seq<AssetEntry>,
    path: Seq<Seq<char>>,
    tree: FsTree,
    j: int,
) -> bool {
    &&& 0 <= j < ts.len()
    &&& scan_reaches(ts, assets, path, tree, j)
    &&& ts[j].project.routes.deep_view().contains(path)
    &&& has_asset(assets, ts[j].name@)
    &&& verdict(ts, assets, j, tree) == Outcome::Differs
}

/// Once the scan stops at template `j`, it reaches no later template.
proof fn lemma_reaches_stops(
    ts: Seq<TemplateEntry>,
    assets: Seq<AssetEntry>,
    path: Seq<Seq<char>>,
    tree: FsTree,
    j: int,
    m: int,
)
    requires
        0 <= j < m,
        !scan_moves_past(ts, assets, path, tree, j),
    ensures
        !scan_reaches(ts, assets, path, tree, m),
    decreases m,
{
    if m > j + 1 {
        lemma_reaches_stops(ts, assets, path, tree, j, m - 1);
    }
}

/// Scan all templates' Route Sets at one ancestor.  Returns the index of
/// the template that holds the path and still matches, if any; a path whose
/// template no longer matches is evicted from that template's Route Set,
/// and nothing else changes.
pub fn scan_routes_at(config: &mut Config, assets: &Assets, anc: &Ancestor) -> (r: Option<usize>)
    requires
        wf_config(*old(config)),
        wf_assets(*assets),
        wf_tree(anc.tree),
    ensures
        wf_config(*final(config)),
        final(config).templates@.len() == old(config).templates@.len(),
        forall|m: int|
            0 <= m < old(config).templates@.len() ==> {
                &&& (#[trigger] final(config).templates@[m]).name == old(config).templates@[m].name
                &&& final(config).templates@[m].project.optional_files == old(
                    config,
                ).templates@[m].project.optional_files
                &&& final(config).templates@[m].project.commands == old(
                    config,
                ).templates@[m].project.commands
            },
        forall|m: int|
            0 <= m < old(config).templates@.len() && !evicts_at(
                old(config).templates@,
                assets.entries@,
                anc.path@,
                anc.tree,
                m,
            ) ==> (#[trigger] final(config).templates@[m]).project.routes == old(
                config,
            ).templates@[m].project.routes,
        forall|m: int, q: Seq<Seq<char>>|
            0 <= m < old(config).templates@.len() && evicts_at(
                old(config).templates@,
                assets.entries@,
                anc.path@,
                anc.tree,
                m,
            ) ==> ((#[trigger] final(config).templates@[m].project.routes.deep_view().contains(q))
                <==> (old(config).templates@[m].project.routes.deep_view().contains(q) && q
                != anc.path@)),
        match r {
            Some(j) => scan1(
                old(config).templates@,
                assets.entries@,
                anc.path@,
                anc.tree,
                0,
            ) == ScanSpec::Found(j as int),
            None => !(scan1(old(config).templates@, assets.entries@, anc.path@, anc.tree, 0)
                is Found),
        },
{
    let ghost ts0 = old(config).templates@;
    let ghost pathv = anc.path@;
    let mut j: usize = 0;
    while j < config.templates.len()
        invariant
            wf_config(*config),
            wf_config(*old(config)),
            wf_assets(*assets),
            wf_tree(anc.tree),
            ts0 == old(config).templates@,
            pathv == anc.path@,
            j <= ts0.len(),
            config.templates@.len() == ts0.len(),
            forall|m: int| j <= m < ts0.len() ==> config.templates@[m] == ts0[m],
            forall|m: int|
                0 <= m < j ==> {
                    &&& (#[trigger] config.templates@[m]).name == ts0[m].name
                    &&& config.templates@[m].project.optional_files
                        == ts0[m].project.optional_files
                    &&& config.templates@[m].project.commands == ts0[m].project.commands
                },
            forall|m: int|
                0 <= m < j && !evicts_at(ts0, assets.entries@, pathv, anc.tree, m) ==> (
                #[trigger] config.templates@[m]).project.routes == ts0[m].project.routes,
            forall|m: int, q: Seq<Seq<char>>|
                0 <= m < j && evicts_at(ts0, assets.entries@, pathv, anc.tree, m) ==> ((
                #[trigger] config.templates@[m].project.routes.deep_view().contains(q)) <==> (
                ts0[m].project.routes.deep_view().contains(q) && q != pathv)),
            scan_reaches(ts0, assets.entries@, pathv, anc.tree, j as int),
            scan1(ts0, assets.entries@, pathv, anc.tree, 0) == scan1(
                ts0,
                assets.entries@,
                pathv,
                anc.tree,
                j as int,
            ),
        decreases ts0.len() - j,
    {
        let hit = crate::context::routes_has(&config.templates[j].project.routes, &anc.path);
        proof {
            assert(config.templates@[j as int] == ts0[j as int]);
        }
        if hit {
            match find_asset(&assets.entries, &config.templates[j].name) {
                None => {
                    proof {
                        assert(scan1(ts0, assets.entries@, pathv, anc.tree, j as int)
                            == ScanSpec::Blocked);
                        assert forall|m: int| j as int <= m < ts0.len() implies !evicts_at(
                            ts0,
                            assets.entries@,
                            pathv,
                            anc.tree,
                            m,
                        ) by {
                            if m > j as int {
                                lemma_reaches_stops(
                                    ts0,
                                    assets.entries@,
                                    pathv,
                                    anc.tree,
                                    j as int,
                                    m,
                                );
                            }
                        }
                    }
                    return None;
                },
                Some(a) => {
                    let cmp = compare_dir(
                        &a.tree,
                        &anc.tree,
                        &config.templates[j].project.optional_files,
                    );
                    match cmp {
                        Ok(true) => {
                            proof {
                                assert(verdict(ts0, assets.entries@, j as int, anc.tree)
                                    == Outcome::Matched);
                                assert(scan1(ts0, assets.entries@, pathv, anc.tree, j as int)
                                    == ScanSpec::Found(j as int));
                                assert forall|m: int| j as int <= m < ts0.len() implies !evicts_at(
                                    ts0,
                                    assets.entries@,
                                    pathv,
                                    anc.tree,
                                    m,
                                ) by {
                                    if m > j as int {
                                        lemma_reaches_stops(
                                            ts0,
                                            assets.entries@,
                                            pathv,
                                            anc.tree,
                                            j as int,
                                            m,
                                        );
                                    }
                                }
                            }
                            return Some(j);
                        },
                        Ok(false) => {
                            proof {
                                assert(verdict(ts0, assets.entries@, j as int, anc.tree)
                                    == Outcome::Differs);
                                assert(evicts_at(ts0, assets.entries@, pathv, anc.tree, j as int));
                            }
                            let ghost pre = config.templates@;
                            let mut entry = config.templates.remove(j);
                            proof {
                                assert(paths_distinct(entry.project.routes.deep_view()));
                            }
                            crate::context::route_remove(&mut entry.project.routes, &anc.path);
                            config.templates.insert(j, entry);
                            proof {
                                assert forall|m: int|
                                    0 <= m < ts0.len() && m != j implies config.templates@[m]
                                    == pre[m] by {
                                    assert(config.templates@ == pre.remove(j as int).insert(
                                        j as int,
                                        config.templates@[j as int],
                                    ));
                                }
                                assert forall|a2: int, b2: int|
                                    0 <= a2 < b2 < config.templates@.len() implies config.templates@[a2].name@
                                    != config.templates@[b2].name@ by {
                                    assert(config.templates@[a2].name == (if a2 == j {
                                        ts0[a2].name
                                    } else {
                                        pre[a2].name
                                    }));
                                    assert(config.templates@[b2].name == (if b2 == j {
                                        ts0[b2].name
                                    } else {
                                        pre[b2].name
                                    }));
                                    assert(pre[a2].name@ != pre[b2].name@);
                                }
                                assert forall|m: int|
                                    0 <= m < config.templates@.len() implies paths_distinct(
                                    (#[trigger] config.templates@[m]).project.routes.deep_view(),
                                ) by {
                                    if m != j {
                                        assert(config.templates@[m] == pre[m]);
                                        assert(paths_distinct(
                                            pre[m].project.routes.deep_view(),
                                        ));
                                    }
                                }
                            }
                        },
                        Err(_) => {
                            proof {
                                assert(verdict(ts0, assets.entries@, j as int, anc.tree)
                                    == Outcome::Unreadable);
                                assert(scan1(ts0, assets.entries@, pathv, anc.tree, j as int)
                                    == ScanSpec::Blocked);
                                assert forall|m: int| j as int <= m < ts0.len() implies !evicts_at(
                                    ts0,
                                    assets.entries@,
                                    pathv,
                                    anc.tree,
                                    m,
                                ) by {
                                    if m > j as int {
                                        lemma_reaches_stops(
                                            ts0,
                                            assets.entries@,
                                            pathv,
                                            anc.tree,
                                            j as int,
                                            m,
                                        );
                                    }
                                }
                            }
                            return None;
                        },
                    }
                },
            }
        }
        proof {
            assert(scan_moves_past(ts0, assets.entries@, pathv, anc.tree, j as int));
            assert(scan1(ts0, assets.entries@, pathv, anc.tree, j as int) == scan1(
                ts0,
                assets.entries@,
                pathv,
                anc.tree,
                j + 1 as int,
            ));
        }
        j = j + 1;
    }
    proof {
        assert(scan1(ts0, assets.entries@, pathv, anc.tree, ts0.len() as int)
            == ScanSpec::NotHere);
    }
    None
}


/// What the cold search of one ancestor comes to, over the templates from
/// index `j` on: the names of the templates whose structure matches, in
/// store order, unless some template's asset directory is missing.
pub enum ColdSpec {
    Names(Seq<Seq<char>>),
    MissingAsset,
}

/// The cold search of one ancestor: every template is verified
/// structurally, and every match is collected; a missing asset directory is
/// an error.
pub open spec fn cold1(
    ts: Seq<TemplateEntry>,
    assets: Seq<AssetEntry>,
    tree: FsTree,
    j: int,
) -> ColdSpec
    decreases ts.len() - j,
{
    if j < 0 || j >= ts.len() {
        ColdSpec::Names(Seq::empty())
    } else if !has_asset(assets, ts[j].name@) {
        ColdSpec::MissingAsset
    } else {
        match cold1(ts, assets, tree, j + 1) {
            ColdSpec::MissingAsset => ColdSpec::MissingAsset,
            ColdSpec::Names(rest) => ColdSpec::Names(
                if verdict(ts, assets, j, tree) == Outcome::Matched {
                    seq![ts[j].name@] + rest
                } else {
                    rest
                },
            ),
        }
    }
}

/// Collect the names of all templates that structurally match this
/// directory snapshot, in store order.  Fails exactly when some template's
/// asset directory is missing.
pub fn coincidences_at(config: &Config, assets: &Assets, tree: &FsTree) -> (r: Result<
    Vec<String>,
    Error,
>)
    requires
        wf_config(*config),
        wf_assets(*assets),
        wf_tree(*tree),
    ensures
        match r {
            Ok(names) => cold1(config.templates@, assets.entries@, *tree, 0) == ColdSpec::Names(
                names.deep_view(),
            ),
            Err(e) => cold1(config.templates@, assets.entries@, *tree, 0)
                == ColdSpec::MissingAsset && e == (Error::TemplateNotFound),
        },
{
    let ghost ts = config.templates@;
    let mut acc: Vec<String> = Vec::new();
    let mut j: usize = 0;
    proof {
        assert(acc.deep_view() =~= Seq::<Seq<char>>::empty());
    }
    while j < config.templates.len()
        invariant
            wf_config(*config),
            wf_assets(*assets),
            wf_tree(*tree),
            ts == config.templates@,
            j <= ts.len(),
            match cold1(ts, assets.entries@, *tree, j as int) {
                ColdSpec::MissingAsset => cold1(ts, assets.entries@, *tree, 0)
                    == ColdSpec::MissingAsset,
                ColdSpec::Names(rest) => cold1(ts, assets.entries@, *tree, 0) == ColdSpec::Names(
                    acc.deep_view() + rest,
                ),
            },
        decreases ts.len() - j,
    {
        match find_asset(&assets.entries, &config.templates[j].name) {
            None => {
                proof {
                    assert(cold1(ts, assets.entries@, *tree, j as int) == ColdSpec::MissingAsset);
                }
                return Err(Error::TemplateNotFound);
            },
            Some(a) => {
                let cmp = compare_dir(&a.tree, tree, &config.templates[j].project.optional_files);
                let matched = match cmp {
                    Ok(true) => true,
                    _ => false,
                };
                proof {
                    if matched {
                        assert(verdict(ts, assets.entries@, j as int, *tree) == Outcome::Matched);
                    } else {
                        assert(verdict(ts, assets.entries@, j as int, *tree) != Outcome::Matched);
                    }
                }
                if matched {
                    let ghost dv = acc.deep_view();
                    acc.push(config.templates[j].name.clone());
                    proof {
                        assert(acc.deep_view() =~= dv.push(ts[j as int].name@));
                        match cold1(ts, assets.entries@, *tree, j + 1 as int) {
                            ColdSpec::MissingAsset => {},
                            ColdSpec::Names(rest) => {
                                assert(dv + (seq![ts[j as int].name@] + rest) =~= acc.deep_view()
                                    + rest);
                            },
                        }
                    }
                }
            },
        }
        j = j + 1;
    }
    proof {
        assert(cold1(ts, assets.entries@, *tree, ts.len() as int) == ColdSpec::Names(
            Seq::empty(),
        ));
        assert(acc.deep_view() + Seq::<Seq<char>>::empty() =~= acc.deep_view());
    }
    Ok(acc)
}

/// Inversion of a successful cached-route scan: the found template is in
/// range, holds the path, has its asset, and matches structurally.
proof fn lemma_scan1_found(
    ts: Seq<TemplateEntry>,
    assets: Seq<AssetEntry>,
    path: Seq<Seq<char>>,
    tree: FsTree,
    j0: int,
    j: int,
)
    requires
        scan1(ts, assets, path, tree, j0) == ScanSpec::Found(j),
    ensures
        j0 <= j < ts.len(),
        ts[j].project.routes.deep_view().contains(path),
        has_asset(assets, ts[j].name@),
        verdict(ts, assets, j, tree) == Outcome::Matched,
    decreases ts.len() - j0,
{
    if j0 < 0 || j0 >= ts.len() {
    } else if ts[j0].project.routes.deep_view().contains(path) {
        if !has_asset(assets, ts[j0].name@) {
        } else if verdict(ts, assets, j0, tree) == Outcome::Matched {
        } else if verdict(ts, assets, j0, tree) == Outcome::Differs {
            lemma_scan1_found(ts, assets, path, tree, j0 + 1, j);
        }
    } else {
        lemma_scan1_found(ts, assets, path, tree, j0 + 1, j);
    }
}

/// Two template stores agree on everything but their Route Sets.
pub open spec fn same_shape(a: Seq<TemplateEntry>, b: Seq<TemplateEntry>) -> bool {
    &&& a.len() == b.len()
    &&& forall|i: int|
        0 <= i < a.len() ==> {
            &&& (#[trigger] a[i]).name == b[i].name
            &&& a[i].project.optional_files == b[i].project.optional_files
            &&& a[i].project.commands == b[i].project.commands
        }
}

/// The cached-route scan reads only names, optional files, and whether a
/// Route Set holds the scanned path; stores that agree there scan alike.
proof fn lemma_scan1_same(
    a: Seq<TemplateEntry>,
    b: Seq<TemplateEntry>,
    assets: Seq<AssetEntry>,
    path: Seq<Seq<char>>,
    tree: FsTree,
    j: int,
)
    requires
        same_shape(a, b),
        forall|i: int|
            0 <= i < a.len() ==> ((#[trigger] a[i].project.routes.deep_view().contains(path))
                == b[i].project.routes.deep_view().contains(path)),
    ensures
        scan1(a, assets, path, tree, j) == scan1(b, assets, path, tree, j),
    decreases a.len() - j,
{
    if 0 <= j < a.len() {
        lemma_scan1_same(a, b, assets, path, tree, j + 1);
        assert(a[j].name == b[j].name);
        assert(a[j].project.optional_files == b[j].project.optional_files);
    }
}

/// The cold search reads only names and optional files; stores that agree
/// there search alike.
proof fn lemma_cold1_same(
    a: Seq<TemplateEntry>,
    b: Seq<TemplateEntry>,
    assets: Seq<AssetEntry>,
    tree: FsTree,
    j: int,
)
    requires
        same_shape(a, b),
    ensures
        cold1(a, assets, tree, j) == cold1(b, assets, tree, j),
    decreases a.len() - j,
{
    if 0 <= j < a.len() {
        lemma_cold1_same(a, b, assets, tree, j + 1);
        assert(a[j].name == b[j].name);
        assert(a[j].project.optional_files == b[j].project.optional_files);
    }
}

/// Every name the cold search collects names some template of the store.
proof fn lemma_cold1_names_are_templates(
    ts: Seq<TemplateEntry>,
    assets: Seq<AssetEntry>,
    tree: FsTree,
    j: int,
)
    ensures
        match cold1(ts, assets, tree, j) {
            ColdSpec::Names(ns) => forall|x: int|
                0 <= x < ns.len() ==> exists|i: int|
                    j <= i < ts.len() && #[trigger] ts[i].name@ == #[trigger] ns[x],
            ColdSpec::MissingAsset => true,
        },
    decreases ts.len() - j,
{
    if j < 0 || j >= ts.len() {
    } else {
        lemma_cold1_names_are_templates(ts, assets, tree, j + 1);
        if has_asset(assets, ts[j].name@) {
            match cold1(ts, assets, tree, j + 1) {
                ColdSpec::MissingAsset => {},
                ColdSpec::Names(rest) => {
                    match cold1(ts, assets, tree, j) {
                        ColdSpec::MissingAsset => {},
                        ColdSpec::Names(ns) => {
                            assert forall|x: int| 0 <= x < ns.len() implies exists|i: int|
                                j <= i < ts.len() && #[trigger] ts[i].name@ == #[trigger] ns[x] by {
                                if verdict(ts, assets, j, tree) == Outcome::Matched {
                                    if x == 0 {
                                        assert(ts[j].name@ == ns[0]);
                                    } else {
                                        assert(ns[x] == rest[x - 1]);
                                    }
                                } else {
                                    assert(ns[x] == rest[x]);
                                }
                            }
                        },
                    }
                },
            }
        }
    }
}

/// What the cached-route phase comes to, walking the ancestors from index
/// `k` on: the first ancestor whose scan finds a still-matching cached
/// route wins.
pub enum Ph1 {
    Hit { k: int, j: int },
    NoHit,
}

/// The cached-route phase over the ancestor walk.
pub open spec fn phase1(
    ts: Seq<TemplateEntry>,
    assets: Seq<AssetEntry>,
    ancs: Seq<Ancestor>,
    k: int,
) -> Ph1
    decreases ancs.len() - k,
{
    if k < 0 || k >= ancs.len() {
        Ph1::NoHit
    } else {
        match scan1(ts, assets, ancs[k].path@, ancs[k].tree, 0) {
            ScanSpec::Found(j) => Ph1::Hit { k, j },
            _ => phase1(ts, assets, ancs, k + 1),
        }
    }
}

/// What the cold-search phase comes to, walking the ancestors from index
/// `k` on: the first ancestor with any coincidence wins, a missing asset
/// directory is an error, and exhaustion means no project was found.
pub enum Ph2 {
    Stop { k: int, names: Seq<Seq<char>> },
    MissingAsset,
    NoneFound,
}

/// The cold-search phase over the ancestor walk.
pub open spec fn phase2(
    ts: Seq<TemplateEntry>,
    assets: Seq<AssetEntry>,
    ancs: Seq<Ancestor>,
    k: int,
) -> Ph2
    decreases ancs.len() - k,
{
    if k < 0 || k >= ancs.len() {
        Ph2::NoneFound
    } else {
        match cold1(ts, assets, ancs[k].tree, 0) {
            ColdSpec::MissingAsset => Ph2::MissingAsset,
            ColdSpec::Names(ns) => if ns.len() > 0 {
                Ph2::Stop { k, names: ns }
            } else {
                phase2(ts, assets, ancs, k + 1)
            },
        }
    }
}

/// The index an entry of the store had before the entry at `j` was moved
/// out.
pub open spec fn skip_idx(m: int, j: int) -> int {
    if m < j {
        m
    } else {
        m + 1
    }
}

/// Whether `q` is the path of one of the walked ancestors.
pub open spec fn is_ancestor_path(ancs: Seq<Ancestor>, q: Seq<Seq<char>>) -> bool {
    exists|k: int| 0 <= k < ancs.len() && #[trigger] ancs[k].path@ == q
}

/// A resolved Context is bound to the winning ancestor path and carries the
/// winning template's definitions; its Route Set holds that path, every
/// route of the template that lies off the walked ancestors, and nothing
/// the template did not already have.
pub open spec fn located_ctx_ok(
    ctx: Context,
    ts0: Seq<TemplateEntry>,
    ancs: Seq<Ancestor>,
    k_path: Seq<Seq<char>>,
    j: int,
) -> bool {
    &&& ctx.template_name@ == ts0[j].name@
    &&& ctx.details.workspace@ == k_path
    &&& ctx.details.src@ == k_path.push("src"@)
    &&& ctx.project_config.optional_files == ts0[j].project.optional_files
    &&& ctx.project_config.commands == ts0[j].project.commands
    &&& ctx.project_config.routes.deep_view().contains(k_path)
    &&& forall|q: Seq<Seq<char>>|
        #[trigger] ctx.project_config.routes.deep_view().contains(q)
            ==> ts0[j].project.routes.deep_view().contains(q) || q == k_path
    &&& forall|q: Seq<Seq<char>>|
        #[trigger] ts0[j].project.routes.deep_view().contains(q) && !is_ancestor_path(ancs, q)
            ==> ctx.project_config.routes.deep_view().contains(q)
}

/// The store keeps its shape; every Route Set only shrinks, and loses at
/// most paths of walked ancestors.
pub open spec fn shrunk_same_shape(
    cur: Seq<TemplateEntry>,
    orig: Seq<TemplateEntry>,
    ancs: Seq<Ancestor>,
) -> bool {
    &&& same_shape(cur, orig)
    &&& forall|m: int, q: Seq<Seq<char>>|
        0 <= m < cur.len() && (#[trigger] cur[m].project.routes.deep_view().contains(q))
            ==> orig[m].project.routes.deep_view().contains(q)
    &&& forall|m: int, q: Seq<Seq<char>>|
        0 <= m < cur.len() && orig[m].project.routes.deep_view().contains(q) && !is_ancestor_path(
            ancs,
            q,
        ) ==> (#[trigger] cur[m].project.routes.deep_view().contains(q))
}

/// The store lost exactly the entry at `j` and keeps its shape otherwise;
/// every remaining Route Set only shrinks, and loses at most paths of
/// walked ancestors.
pub open spec fn shrunk_removed(
    cur: Seq<TemplateEntry>,
    orig: Seq<TemplateEntry>,
    ancs: Seq<Ancestor>,
    j: int,
) -> bool {
    &&& cur.len() == orig.len() - 1
    &&& forall|m: int|
        0 <= m < cur.len() ==> {
            &&& (#[trigger] cur[m]).name == orig[skip_idx(m, j)].name
            &&& cur[m].project.optional_files == orig[skip_idx(m, j)].project.optional_files
            &&& cur[m].project.commands == orig[skip_idx(m, j)].project.commands
        }
    &&& forall|m: int, q: Seq<Seq<char>>|
        0 <= m < cur.len() && (#[trigger] cur[m].project.routes.deep_view().contains(q))
            ==> orig[skip_idx(m, j)].project.routes.deep_view().contains(q)
    &&& forall|m: int, q: Seq<Seq<char>>|
        0 <= m < cur.len() && orig[skip_idx(m, j)].project.routes.deep_view().contains(q)
            && !is_ancestor_path(ancs, q) ==> (
        #[trigger] cur[m].project.routes.deep_view().contains(q))
}

/// What resolving the current directory comes to.
pub enum Resolution {
    /// One template governs the directory; its Context is ready.
    Resolved(Context),
    /// Several templates structurally match the winning ancestor; the
    /// caller must have one of the coincident names chosen, then register
    /// it with `choose_template`.
    Ambiguous { path: AbsPath, coincidences: Vec<String> },
}

impl Context {
    /// Resolve which template governs the current directory.  First walk
    /// the ancestors looking for a cached route, verifying structurally and
    /// evicting stale routes; if none hits, walk them again comparing every
    /// template, stopping at the first ancestor with any match: a single
    /// coincidence resolves at once, several are handed back for a choice,
    /// none is "project not found".
    pub fn this(config: &mut Config, assets: &Assets, ancestors: &Vec<Ancestor>) -> (r: Result<
        Resolution,
        Error,
    >)
        requires
            wf_config(*old(config)),
            wf_assets(*assets),
            wf_ancestors(ancestors@),
        ensures
            wf_config(*final(config)),
            ({
                let ts0 = old(config).templates@;
                let a = assets.entries@;
                let ancs = ancestors@;
                match phase1(ts0, a, ancs, 0) {
                    Ph1::Hit { k, j } => (r matches Ok(Resolution::Resolved(ctx))
                        && located_ctx_ok(ctx, ts0, ancs, ancs[k].path@, j) && shrunk_removed(
                        final(config).templates@,
                        ts0,
                        ancs,
                        j,
                    )),
                    Ph1::NoHit => match phase2(ts0, a, ancs, 0) {
                        Ph2::MissingAsset => r == Err::<Resolution, Error>(Error::TemplateNotFound)
                            && shrunk_same_shape(final(config).templates@, ts0, ancs),
                        Ph2::NoneFound => r == Err::<Resolution, Error>(Error::ProjectNotFound)
                            && shrunk_same_shape(final(config).templates@, ts0, ancs),
                        Ph2::Stop { k, names } => if names.len() == 1 {
                            (r matches Ok(Resolution::Resolved(ctx)) && located_ctx_ok(
                                ctx,
                                ts0,
                                ancs,
                                ancs[k].path@,
                                template_idx(ts0, names[0]),
                            ) && shrunk_removed(
                                final(config).templates@,
                                ts0,
                                ancs,
                                template_idx(ts0, names[0]),
                            ))
                        } else {
                            (r matches Ok(Resolution::Ambiguous { path, coincidences }) && path@
                                == ancs[k].path@ && coincidences.deep_view() == names
                                && shrunk_same_shape(final(config).templates@, ts0, ancs))
                        },
                    },
                }
            }),
    {
        let ghost ts0 = old(config).templates@;
        let ghost a = assets.entries@;
        let ghost ancs = ancestors@;
        let mut k: usize = 0;
        while k < ancestors.len()
            invariant
                wf_config(*config),
                wf_assets(*assets),
                wf_ancestors(ancs),
                ts0 == old(config).templates@,
                a == assets.entries@,
                ancs == ancestors@,
                k <= ancs.len(),
                shrunk_same_shape(config.templates@, ts0, ancs),
                forall|m: int, k2: int|
                    0 <= m < ts0.len() && k <= k2 < ancs.len() ==> ((
                    #[trigger] config.templates@[m].project.routes.deep_view().contains(
                        ancs[k2].path@,
                    )) == ts0[m].project.routes.deep_view().contains(ancs[k2].path@)),
                phase1(ts0, a, ancs, 0) == phase1(ts0, a, ancs, k as int),
            decreases ancs.len() - k,
        {
            let ghost cur = config.templates@;
            let found = scan_routes_at(config, assets, &ancestors[k]);
            proof {
                lemma_scan1_same(cur, ts0, a, ancs[k as int].path@, ancs[k as int].tree, 0);
            }
            match found {
                Some(j) => {
                    proof {
                        assert(phase1(ts0, a, ancs, k as int) == Ph1::Hit {
                            k: k as int,
                            j: j as int,
                        });
                        lemma_scan1_found(cur, a, ancs[k as int].path@, ancs[k as int].tree, 0,
                            j as int);
                        assert(!evicts_at(cur, a, ancs[k as int].path@, ancs[k as int].tree,
                            j as int));
                        assert(config.templates@[j as int].project.routes == cur[j as int].project.routes);
                    }
                    let ghost post = config.templates@;
                    let name = config.templates[j].name.clone();
                    let path = ancestors[k].path.duplicate();
                    proof {
                        assert(post[j as int].name@ == name@);
                        assert(has_template(post, name@));
                        let i = template_idx(post, name@);
                        assert(post[i].name@ == name@);
                        assert(i == j as int);
                    }
                    let res = config.add_route(path, name);
                    match res {
                        Ok(ctx) => {
                            proof {
                                let pathv = ancs[k as int].path@;
                                assert(ctx.project_config.routes.deep_view().contains(pathv)) by {
                                    let rs = post[j as int].project.routes.deep_view();
                                    if !rs.contains(pathv) {
                                        assert(rs.push(pathv)[rs.len() as int] == pathv);
                                    }
                                }
                                assert forall|q: Seq<Seq<char>>|
                                    #[trigger] ts0[j as int].project.routes.deep_view().contains(
                                    q,
                                ) && !is_ancestor_path(ancs, q) implies ctx.project_config.routes.deep_view().contains(
                                    q,
                                ) by {
                                    assert(cur[j as int].project.routes.deep_view().contains(q));
                                    assert(post[j as int].project.routes.deep_view().contains(q));
                                    let rs = post[j as int].project.routes.deep_view();
                                    if ctx.project_config.routes.deep_view() != rs {
                                        let x = choose|x: int| 0 <= x < rs.len() && rs[x] == q;
                                        assert(rs.push(pathv)[x] == q);
                                    }
                                }
                                assert(located_ctx_ok(ctx, ts0, ancs, pathv, j as int));
                                assert forall|m: int| 0 <= m < config.templates@.len() implies {
                                    &&& (#[trigger] config.templates@[m]).name == ts0[skip_idx(
                                        m,
                                        j as int,
                                    )].name
                                    &&& config.templates@[m].project.optional_files == ts0[skip_idx(
                                        m,
                                        j as int,
                                    )].project.optional_files
                                    &&& config.templates@[m].project.commands == ts0[skip_idx(
                                        m,
                                        j as int,
                                    )].project.commands
                                } by {
                                    assert(config.templates@[m] == post[skip_idx(m, j as int)]);
                                }
                                assert forall|m: int, q: Seq<Seq<char>>|
                                    0 <= m < config.templates@.len() && (
                                    #[trigger] config.templates@[m].project.routes.deep_view().contains(
                                        q,
                                    )) implies ts0[skip_idx(
                                    m,
                                    j as int,
                                )].project.routes.deep_view().contains(q) by {
                                    assert(config.templates@[m] == post[skip_idx(m, j as int)]);
                                }
                                assert forall|m: int, q: Seq<Seq<char>>|
                                    0 <= m < config.templates@.len() && ts0[skip_idx(
                                    m,
                                    j as int,
                                )].project.routes.deep_view().contains(q) && !is_ancestor_path(
                                    ancs,
                                    q,
                                ) implies (
                                #[trigger] config.templates@[m].project.routes.deep_view().contains(
                                    q,
                                )) by {
                                    let s = skip_idx(m, j as int);
                                    assert(cur[s].project.routes.deep_view().contains(q));
                                    assert(ancs[k as int].path@ != q) by {
                                        if ancs[k as int].path@ == q {
                                            assert(is_ancestor_path(ancs, q));
                                        }
                                    }
                                    if !evicts_at(cur, a, ancs[k as int].path@,
                                        ancs[k as int].tree, s) {
                                        assert(post[s].project.routes == cur[s].project.routes);
                                    }
                                    assert(post[s].project.routes.deep_view().contains(q));
                                    assert(config.templates@[m] == post[s]);
                                }
                                assert(shrunk_removed(config.templates@, ts0, ancs, j as int));
                            }
                            return Ok(Resolution::Resolved(ctx));
                        },
                        Err(e) => {
                            proof {
                                assert(false);
                            }
                            return Err(e);
                        },
                    }
                },
                None => {
                    proof {
                        assert(phase1(ts0, a, ancs, k as int) == phase1(ts0, a, ancs, k + 1));
                        assert forall|m: int, k2: int|
                            0 <= m < ts0.len() && k + 1 <= k2 < ancs.len() implies ((
                            #[trigger] config.templates@[m].project.routes.deep_view().contains(
                                ancs[k2].path@,
                            )) == ts0[m].project.routes.deep_view().contains(ancs[k2].path@)) by {
                            assert(ancs[k as int].path@ != ancs[k2].path@);
                            if evicts_at(cur, a, ancs[k as int].path@, ancs[k as int].tree, m) {
                            } else {
                                assert(config.templates@[m].project.routes == cur[m].project.routes);
                            }
                        }
                        assert forall|m: int, q: Seq<Seq<char>>|
                            0 <= m < config.templates@.len() && (
                            #[trigger] config.templates@[m].project.routes.deep_view().contains(q))
                            implies ts0[m].project.routes.deep_view().contains(q) by {
                            if evicts_at(cur, a, ancs[k as int].path@, ancs[k as int].tree, m) {
                            } else {
                                assert(config.templates@[m].project.routes == cur[m].project.routes);
                            }
                        }
                        assert forall|m: int, q: Seq<Seq<char>>|
                            0 <= m < config.templates@.len()
                                && ts0[m].project.routes.deep_view().contains(q)
                                && !is_ancestor_path(ancs, q) implies (
                        #[trigger] config.templates@[m].project.routes.deep_view().contains(
                            q,
                        )) by {
                            assert(cur[m].project.routes.deep_view().contains(q));
                            assert(ancs[k as int].path@ != q) by {
                                if ancs[k as int].path@ == q {
                                    assert(is_ancestor_path(ancs, q));
                                }
                            }
                            if !evicts_at(cur, a, ancs[k as int].path@, ancs[k as int].tree, m) {
                                assert(config.templates@[m].project.routes == cur[m].project.routes);
                            }
                        }
                    }
                    k = k + 1;
                },
            }
        }
        proof {
            assert(phase1(ts0, a, ancs, ancs.len() as int) == Ph1::NoHit);
        }
        let ghost ts1 = config.templates@;
        let mut k2: usize = 0;
        while k2 < ancestors.len()
            invariant
                wf_config(*config),
                wf_assets(*assets),
                wf_ancestors(ancs),
                ts0 == old(config).templates@,
                a == assets.entries@,
                ancs == ancestors@,
                k2 <= ancs.len(),
                wf_config(*old(config)),
                config.templates@ == ts1,
                shrunk_same_shape(ts1, ts0, ancs),
                phase1(ts0, a, ancs, 0) == Ph1::NoHit,
                phase2(ts0, a, ancs, 0) == phase2(ts0, a, ancs, k2 as int),
            decreases ancs.len() - k2,
        {
            let names = coincidences_at(config, assets, &ancestors[k2].tree);
            proof {
                lemma_cold1_same(ts1, ts0, a, ancs[k2 as int].tree, 0);
            }
            match names {
                Err(e) => {
                    proof {
                        assert(phase2(ts0, a, ancs, k2 as int) == Ph2::MissingAsset);
                    }
                    return Err(e);
                },
                Ok(names) => {
                    if names.len() == 0 {
                        proof {
                            assert(names.deep_view().len() == 0);
                            assert(phase2(ts0, a, ancs, k2 as int) == phase2(
                                ts0,
                                a,
                                ancs,
                                k2 + 1,
                            ));
                        }
                        k2 = k2 + 1;
                    } else if names.len() == 1 {
                        proof {
                            assert(names.deep_view().len() == 1);
                            assert(phase2(ts0, a, ancs, 0) == Ph2::Stop {
                                k: k2 as int,
                                names: names.deep_view(),
                            });
                        }
                        let name = names[0].clone();
                        proof {
                            assert(name@ == names.deep_view()[0]);
                            lemma_cold1_names_are_templates(ts1, a, ancs[k2 as int].tree, 0);
                            assert(has_template(ts1, name@));
                            let i1 = template_idx(ts1, name@);
                            assert(ts1[i1].name@ == name@);
                            assert(ts0[i1].name@ == name@);
                            let i0 = template_idx(ts0, name@);
                            assert(ts0[i0].name@ == name@);
                            assert(i0 == i1);
                        }
                        let res = config.add_route(ancestors[k2].path.duplicate(), name);
                        match res {
                            Ok(ctx) => {
                                proof {
                                    let pathv = ancs[k2 as int].path@;
                                    let i1 = template_idx(ts1, names.deep_view()[0]);
                                    assert(ctx.project_config.routes.deep_view().contains(
                                        pathv,
                                    )) by {
                                        let rs = ts1[i1].project.routes.deep_view();
                                        if !rs.contains(pathv) {
                                            assert(rs.push(pathv)[rs.len() as int] == pathv);
                                        }
                                    }
                                    assert(ts1[i1].name == ts0[i1].name);
                                    assert(ts1[i1].project.optional_files
                                        == ts0[i1].project.optional_files);
                                    assert(ts1[i1].project.commands == ts0[i1].project.commands);
                                    assert(ctx.template_name@ == ts0[i1].name@);
                                    let rs = ts1[i1].project.routes.deep_view();
                                    assert forall|q: Seq<Seq<char>>|
                                        #[trigger] ctx.project_config.routes.deep_view().contains(
                                        q,
                                    ) implies ts0[i1].project.routes.deep_view().contains(q) || q
                                        == pathv by {
                                        if ctx.project_config.routes.deep_view() == rs {
                                            assert(ts1[i1].project.routes.deep_view().contains(q));
                                        } else {
                                            let m = choose|m: int|
                                                0 <= m < rs.push(pathv).len() && rs.push(pathv)[m]
                                                    == q;
                                            if m < rs.len() {
                                                assert(rs[m] == q);
                                                assert(ts1[i1].project.routes.deep_view().contains(
                                                    q,
                                                ));
                                            } else {
                                                assert(q == pathv);
                                            }
                                        }
                                    }
                                    assert forall|q: Seq<Seq<char>>|
                                        #[trigger] ts0[i1].project.routes.deep_view().contains(q)
                                            && !is_ancestor_path(ancs, q) implies ctx.project_config.routes.deep_view().contains(
                                        q,
                                    ) by {
                                        assert(ts1[i1].project.routes.deep_view().contains(q));
                                        let rs2 = ts1[i1].project.routes.deep_view();
                                        if ctx.project_config.routes.deep_view() != rs2 {
                                            let x = choose|x: int|
                                                0 <= x < rs2.len() && rs2[x] == q;
                                            assert(rs2.push(pathv)[x] == q);
                                        }
                                    }
                                    assert(located_ctx_ok(ctx, ts0, ancs, pathv, i1));
                                    assert forall|m: int|
                                        0 <= m < config.templates@.len() implies {
                                        &&& (#[trigger] config.templates@[m]).name == ts0[skip_idx(
                                            m,
                                            i1,
                                        )].name
                                        &&& config.templates@[m].project.optional_files
                                            == ts0[skip_idx(m, i1)].project.optional_files
                                        &&& config.templates@[m].project.commands == ts0[skip_idx(
                                            m,
                                            i1,
                                        )].project.commands
                                    } by {
                                        assert(config.templates@[m] == ts1[skip_idx(m, i1)]);
                                    }
                                    assert forall|m: int, q: Seq<Seq<char>>|
                                        0 <= m < config.templates@.len() && (
                                        #[trigger] config.templates@[m].project.routes.deep_view().contains(
                                            q,
                                        )) implies ts0[skip_idx(
                                        m,
                                        i1,
                                    )].project.routes.deep_view().contains(q) by {
                                        assert(config.templates@[m] == ts1[skip_idx(m, i1)]);
                                    }
                                    assert forall|m: int, q: Seq<Seq<char>>|
                                        0 <= m < config.templates@.len() && ts0[skip_idx(
                                        m,
                                        i1,
                                    )].project.routes.deep_view().contains(q) && !is_ancestor_path(
                                        ancs,
                                        q,
                                    ) implies (
                                    #[trigger] config.templates@[m].project.routes.deep_view().contains(
                                        q,
                                    )) by {
                                        assert(ts1[skip_idx(m, i1)].project.routes.deep_view().contains(
                                            q,
                                        ));
                                        assert(config.templates@[m] == ts1[skip_idx(m, i1)]);
                                    }
                                    assert(shrunk_removed(config.templates@, ts0, ancs, i1));
                                }
                                return Ok(Resolution::Resolved(ctx));
                            },
                            Err(e) => {
                                proof {
                                    assert(false);
                                }
                                return Err(e);
                            },
                        }
                    } else {
                        proof {
                            assert(names.deep_view().len() == names@.len());
                            assert(phase2(ts0, a, ancs, 0) == Ph2::Stop {
                                k: k2 as int,
                                names: names.deep_view(),
                            });
                        }
                        return Ok(
                            Resolution::Ambiguous {
                                path: ancestors[k2].path.duplicate(),
                                coincidences: names,
                            },
                        );
                    }
                },
            }
        }
        proof {
            assert(phase2(ts0, a, ancs, ancs.len() as int) == Ph2::NoneFound);
        }
        Err(Error::ProjectNotFound)
    }
}

/// Register the template the user chose among coincident names: the chosen
/// name's template takes the winning path into its Route Set and is handed
/// out as the Context.
pub fn choose_template(
    config: &mut Config,
    path: AbsPath,
    coincidences: &Vec<String>,
    option: usize,
) -> (r: Result<Context, Error>)
    requires
        wf_config(*old(config)),
        option < coincidences@.len(),
    ensures
        wf_config(*final(config)),
        has_template(old(config).templates@, coincidences@[option as int]@) ==> ({
            let i = template_idx(old(config).templates@, coincidences@[option as int]@);
            &&& r is Ok
            &&& final(config).templates@ == old(config).templates@.remove(i)
            &&& r->Ok_0.template_name == coincidences@[option as int]
            &&& r->Ok_0.details.workspace@ == path@
            &&& r->Ok_0.details.src@ == path@.push("src"@)
            &&& r->Ok_0.project_config.optional_files == old(
                config,
            ).templates@[i].project.optional_files
            &&& r->Ok_0.project_config.commands == old(config).templates@[i].project.commands
            &&& r->Ok_0.project_config.routes.deep_view().contains(path@)
        }),
        !has_template(old(config).templates@, coincidences@[option as int]@) ==> r == Err::<
            Context,
            Error,
        >(Error::TemplateNotFound) && *final(config) == *old(config),
{
    let ghost pathv = path@;
    let r = config.add_route(path, coincidences[option].clone());
    proof {
        if has_template(old(config).templates@, coincidences@[option as int]@) {
            let i = template_idx(old(config).templates@, coincidences@[option as int]@);
            let rs = old(config).templates@[i].project.routes.deep_view();
            if !rs.contains(pathv) {
                assert(rs.push(pathv)[rs.len() as int] == pathv);
            }
        }
    }
    r
}

/// With every asset present, the cold search of one ancestor never errs.
proof fn lemma_cold1_no_missing(
    ts: Seq<TemplateEntry>,
    assets: Seq<AssetEntry>,
    tree: FsTree,
    j: int,
)
    requires
        forall|m: int| 0 <= m < ts.len() ==> has_asset(assets, #[trigger] ts[m].name@),
    ensures
        cold1(ts, assets, tree, j) is Names,
    decreases ts.len() - j,
{
    if j < 0 || j >= ts.len() {
    } else {
        lemma_cold1_no_missing(ts, assets, tree, j + 1);
    }
}

/// With every asset present and no structural match at this ancestor, the
/// cold search collects nothing.
proof fn lemma_cold1_empty(ts: Seq<TemplateEntry>, assets: Seq<AssetEntry>, tree: FsTree, j: int)
    requires
        forall|m: int| 0 <= m < ts.len() ==> has_asset(assets, #[trigger] ts[m].name@),
        forall|m: int| 0 <= m < ts.len() ==> verdict(ts, assets, m, tree) != Outcome::Matched,
    ensures
        cold1(ts, assets, tree, j) == ColdSpec::Names(Seq::<Seq<char>>::empty()),
    decreases ts.len() - j,
{
    if j < 0 || j >= ts.len() {
    } else {
        lemma_cold1_empty(ts, assets, tree, j + 1);
    }
}

/// With every asset present and exactly the templates at `i1 < i2`
/// matching, the cold search collects exactly their two names, in store
/// order.
proof fn lemma_cold1_two(
    ts: Seq<TemplateEntry>,
    assets: Seq<AssetEntry>,
    tree: FsTree,
    i1: int,
    i2: int,
    j: int,
)
    requires
        forall|m: int| 0 <= m < ts.len() ==> has_asset(assets, #[trigger] ts[m].name@),
        0 <= i1 < i2 < ts.len(),
        verdict(ts, assets, i1, tree) == Outcome::Matched,
        verdict(ts, assets, i2, tree) == Outcome::Matched,
        forall|m: int|
            0 <= m < ts.len() && m != i1 && m != i2 ==> verdict(ts, assets, m, tree)
                != Outcome::Matched,
        0 <= j,
    ensures
        j <= i1 ==> cold1(ts, assets, tree, j) == ColdSpec::Names(
            seq![ts[i1].name@, ts[i2].name@],
        ),
        i1 < j <= i2 ==> cold1(ts, assets, tree, j) == ColdSpec::Names(seq![ts[i2].name@]),
        j > i2 ==> cold1(ts, assets, tree, j) == ColdSpec::Names(Seq::<Seq<char>>::empty()),
    decreases ts.len() - j,
{
    if j >= ts.len() {
    } else {
        lemma_cold1_two(ts, assets, tree, i1, i2, j + 1);
        if j == i1 {
            assert(seq![ts[i1].name@] + seq![ts[i2].name@] =~= seq![ts[i1].name@, ts[i2].name@]);
        } else if j == i2 {
            assert(seq![ts[i2].name@] + Seq::<Seq<char>>::empty() =~= seq![ts[i2].name@]);
        }
    }
}

/// The cold-search phase passes over ancestors where nothing matches.
proof fn lemma_phase2_skip(
    ts: Seq<TemplateEntry>,
    assets: Seq<AssetEntry>,
    ancs: Seq<Ancestor>,
    k: int,
    k2: int,
)
    requires
        forall|m: int| 0 <= m < ts.len() ==> has_asset(assets, #[trigger] ts[m].name@),
        0 <= k2 <= k <= ancs.len(),
        forall|k3: int, m: int|
            0 <= k3 < k && 0 <= m < ts.len() ==> #[trigger] verdict(ts, assets, m, ancs[k3].tree)
                != Outcome::Matched,
    ensures
        phase2(ts, assets, ancs, k2) == phase2(ts, assets, ancs, k),
    decreases k - k2,
{
    if k2 < k {
        lemma_cold1_empty(ts, assets, ancs[k2].tree, 0);
        lemma_phase2_skip(ts, assets, ancs, k, k2 + 1);
    }
}

/// Cold-search ambiguity: when exactly two templates structurally match the
/// same ancestor, no closer ancestor matches any template, and every asset
/// directory is present, the cold-search phase stops at that ancestor with
/// a coincidence list of exactly those two names, in store order.
pub proof fn lemma_two_coincidences(
    ts: Seq<TemplateEntry>,
    assets: Seq<AssetEntry>,
    ancs: Seq<Ancestor>,
    k: int,
    i1: int,
    i2: int,
)
    requires
        forall|m: int| 0 <= m < ts.len() ==> has_asset(assets, #[trigger] ts[m].name@),
        0 <= k < ancs.len(),
        0 <= i1 < i2 < ts.len(),
        verdict(ts, assets, i1, ancs[k].tree) == Outcome::Matched,
        verdict(ts, assets, i2, ancs[k].tree) == Outcome::Matched,
        forall|m: int|
            0 <= m < ts.len() && m != i1 && m != i2 ==> verdict(ts, assets, m, ancs[k].tree)
                != Outcome::Matched,
        forall|k3: int, m: int|
            0 <= k3 < k && 0 <= m < ts.len() ==> #[trigger] verdict(ts, assets, m, ancs[k3].tree)
                != Outcome::Matched,
    ensures
        phase2(ts, assets, ancs, 0) == (Ph2::Stop {
            k,
            names: seq![ts[i1].name@, ts[i2].name@],
        }),
{
    lemma_phase2_skip(ts, assets, ancs, k, 0);
    lemma_cold1_two(ts, assets, ancs[k].tree, i1, i2, 0);
}

} // verus!
