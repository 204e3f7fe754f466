use vstd::prelude::*;

use crate::strings::{clone_strings, strings_eq};

verus! {

/// An absolute filesystem path, held as the sequence of its components
/// below the root.  The root itself has no components.
pub struct AbsPath {
    pub components: Vec<String>,
}

impl View for AbsPath {
    type V = Seq<Seq<char>>;

    open spec fn view(&self) -> Seq<Seq<char>> {
        self.components.deep_view()
    }
}

impl DeepView for AbsPath {
    type V = Seq<Seq<char>>;

    open spec fn deep_view(&self) -> Seq<Seq<char>> {
        self.view()
    }
}

impl PartialEq for AbsPath {
    fn eq(&self, other: &AbsPath) -> (r: bool) {
        strings_eq(&self.components, &other.components)
    }
}

impl Eq for AbsPath {}

impl vstd::std_specs::cmp::PartialEqSpecImpl for AbsPath {
    open spec fn obeys_eq_spec() -> bool {
        true
    }

    open spec fn eq_spec(&self, other: &AbsPath) -> bool {
        self@ == other@
    }
}

impl AbsPath {
    /// Copy a path, keeping every component.
    pub fn duplicate(&self) -> (r: AbsPath)
        ensures
            r@ == self@,
    {
        AbsPath { components: clone_strings(&self.components) }
    }

    /// The path one component longer, ending in `name`.
    pub fn child(&self, name: &String) -> (r: AbsPath)
        ensures
            r@ == self@.push(name@),
    {
        let mut components = clone_strings(&self.components);
        components.push(name.clone());
        proof {
            assert(components.deep_view() =~= self@.push(name@));
        }
        AbsPath { components }
    }

    /// The path with the last component removed, or `None` at the root.
    pub fn parent(&self) -> (r: Option<AbsPath>)
        ensures
            match r {
                Some(p) => self@.len() > 0 && p@ == self@.drop_last(),
                None => self@.len() == 0,
            },
    {
        if self.components.len() == 0 {
            None
        } else {
            let mut components = clone_strings(&self.components);
            let _last = components.pop();
            proof {
                assert(components.deep_view() =~= self@.drop_last());
            }
            Some(AbsPath { components })
        }
    }
}

/// The list of directories an ancestor walk visits: `cur` first, then each
/// parent in turn, stopping short of `home` (which is never visited) and of
/// the root's parent.
pub open spec fn up_spec(home: Seq<Seq<char>>, cur: Seq<Seq<char>>) -> Seq<Seq<Seq<char>>>
    decreases cur.len(),
{
    if cur == home {
        Seq::empty()
    } else if cur.len() == 0 {
        seq![cur]
    } else {
        seq![cur] + up_spec(home, cur.drop_last())
    }
}

/// Move between project folders: every directory from `current_dir` upward
/// that an ancestor search visits, in the order visited.  The walk stops at
/// `home` without visiting it, or at the filesystem root.
pub fn up(home: &AbsPath, current_dir: &AbsPath) -> (r: Vec<AbsPath>)
    ensures
        r.deep_view() == up_spec(home@, current_dir@),
    decreases current_dir@.len(),
{
    if strings_eq(&current_dir.components, &home.components) {
        let r: Vec<AbsPath> = Vec::new();
        proof {
            assert(r.deep_view() =~= up_spec(home@, current_dir@));
        }
        r
    } else {
        match current_dir.parent() {
            None => {
                let mut r: Vec<AbsPath> = Vec::new();
                r.push(current_dir.duplicate());
                proof {
                    assert(r.deep_view() =~= up_spec(home@, current_dir@));
                }
                r
            },
            Some(p) => {
                let mut r: Vec<AbsPath> = Vec::new();
                r.push(current_dir.duplicate());
                let mut rest = up(home, &p);
                r.append(&mut rest);
                proof {
                    assert(r.deep_view() =~= up_spec(home@, current_dir@));
                }
                r
            },
        }
    }
}

/// The boundary directory is never visited by the ancestor walk.
pub proof fn lemma_up_excludes_boundary(home: Seq<Seq<char>>, cur: Seq<Seq<char>>)
    ensures
        forall|i: int|
            0 <= i < up_spec(home, cur).len() ==> #[trigger] up_spec(home, cur)[i] != home,
    decreases cur.len(),
{
    if cur == home {
    } else if cur.len() == 0 {
    } else {
        lemma_up_excludes_boundary(home, cur.drop_last());
        let rest = up_spec(home, cur.drop_last());
        assert forall|i: int| 0 <= i < up_spec(home, cur).len() implies #[trigger] up_spec(
            home,
            cur,
        )[i] != home by {
            if i > 0 {
                assert(up_spec(home, cur)[i] == rest[i - 1]);
            }
        }
    }
}

/// Each visit strictly shortens the path, so no directory is visited twice.
pub proof fn lemma_up_lengths(home: Seq<Seq<char>>, cur: Seq<Seq<char>>)
    ensures
        forall|i: int|
            0 <= i < up_spec(home, cur).len() ==> #[trigger] up_spec(home, cur)[i].len()
                == cur.len() - i,
    decreases cur.len(),
{
    if cur == home {
    } else if cur.len() == 0 {
    } else {
        lemma_up_lengths(home, cur.drop_last());
        let rest = up_spec(home, cur.drop_last());
        assert forall|i: int| 0 <= i < up_spec(home, cur).len() implies #[trigger] up_spec(
            home,
            cur,
        )[i].len() == cur.len() - i by {
            if i > 0 {
                assert(up_spec(home, cur)[i] == rest[i - 1]);
            }
        }
    }
}

/// The visited directories are pairwise distinct.
pub proof fn lemma_up_distinct(home: Seq<Seq<char>>, cur: Seq<Seq<char>>)
    ensures
        forall|i: int, j: int|
            0 <= i < j < up_spec(home, cur).len() ==> up_spec(home, cur)[i] != up_spec(
                home,
                cur,
            )[j],
{
    lemma_up_lengths(home, cur);
    assert forall|i: int, j: int|
        0 <= i < j < up_spec(home, cur).len() implies up_spec(home, cur)[i] != up_spec(
        home,
        cur,
    )[j] by {
        assert(up_spec(home, cur)[i].len() == cur.len() - i);
        assert(up_spec(home, cur)[j].len() == cur.len() - j);
    }
}

} // verus!
