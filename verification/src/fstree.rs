use vstd::prelude::*;

use crate::strings::str_eq;

verus! {

broadcast use vstd::std_specs::vec::group_vec_axioms;

/// One named entry of a directory.
pub struct FsEntry {
    pub name: String,
    pub tree: FsTree,
}

/// A snapshot of a filesystem tree: directory structure only, no file
/// contents.
pub enum FsTree {
    File,
    Dir(Vec<FsEntry>),
}

/// A directory snapshot is well formed when every directory's entry names
/// are distinct, as a real filesystem forces them to be.
pub open spec fn wf_tree(t: FsTree) -> bool
    decreases t,
{
    match t {
        FsTree::File => true,
        FsTree::Dir(es) => {
            &&& forall|i: int, j: int|
                0 <= i < j < es@.len() ==> es@[i].name@ != es@[j].name@
            &&& forall|i: int| 0 <= i < es@.len() ==> wf_tree(#[trigger] es@[i].tree)
        },
    }
}

/// Junk entries a host OS drops into directories; the comparator ignores
/// them on the template side.
pub open spec fn is_junk(name: Seq<char>) -> bool {
    ||| name == ".DS_Store"@
    ||| name == ".Trash"@
    ||| name == ".Spotlight-V100"@
    ||| name == ".fseventsd"@
    ||| name == ".AppleDouble"@
    ||| name == ".AppleDB"@
    ||| name == ".Trashes"@
    ||| name == ".TemporaryItems"@
    ||| name == "Thumbs.db"@
    ||| name == "Desktop.ini"@
    ||| name == "$RECYCLE.BIN"@
    ||| name == "System Volume Information"@
    ||| name == "pagefile.sys"@
    ||| name == "hiberfil.sys"@
    ||| name == "swapfile.sys"@
}

/// Whether `name` is one of the junk entries.
pub fn junk_name(name: &String) -> (r: bool)
    ensures
        r == is_junk(name@),
{
    let s = name.as_str();
    str_eq(s, ".DS_Store") || str_eq(s, ".Trash") || str_eq(s, ".Spotlight-V100") || str_eq(
        s,
        ".fseventsd",
    ) || str_eq(s, ".AppleDouble") || str_eq(s, ".AppleDB") || str_eq(s, ".Trashes") || str_eq(
        s,
        ".TemporaryItems",
    ) || str_eq(s, "Thumbs.db") || str_eq(s, "Desktop.ini") || str_eq(s, "$RECYCLE.BIN") || str_eq(
        s,
        "System Volume Information",
    ) || str_eq(s, "pagefile.sys") || str_eq(s, "hiberfil.sys") || str_eq(s, "swapfile.sys")
}

/// Whether some entry of `es` carries the name `n`.
pub open spec fn has_entry(es: Seq<FsEntry>, n: Seq<char>) -> bool {
    exists|i: int| 0 <= i < es.len() && #[trigger] es[i].name@ == n
}

/// The entry of `es` carrying the name `n`; meaningful when names are
/// distinct and `has_entry(es, n)` holds.
pub open spec fn entry_named(es: Seq<FsEntry>, n: Seq<char>) -> FsEntry {
    es[choose|i: int| 0 <= i < es.len() && #[trigger] es[i].name@ == n]
}

/// Find the entry of `es` named `n`.
pub fn find_entry<'a>(es: &'a Vec<FsEntry>, n: &String) -> (r: Option<&'a FsEntry>)
    requires
        forall|i: int, j: int| 0 <= i < j < es@.len() ==> es@[i].name@ != es@[j].name@,
    ensures
        match r {
            Some(e) => has_entry(es@, n@) && *e == entry_named(es@, n@),
            None => !has_entry(es@, n@),
        },
{
    let mut i: usize = 0;
    while i < es.len()
        invariant
            i <= es@.len(),
            forall|j: int| 0 <= j < i ==> es@[j].name@ != n@,
            forall|i: int, j: int| 0 <= i < j < es@.len() ==> es@[i].name@ != es@[j].name@,
        decreases es@.len() - i,
    {
        if str_eq(es[i].name.as_str(), n.as_str()) {
            proof {
                let k = choose|k: int| 0 <= k < es@.len() && #[trigger] es@[k].name@ == n@;
                assert(es@[k].name@ == es@[i as int].name@);
                assert(k == i as int);
            }
            return Some(&es[i]);
        }
        i = i + 1;
    }
    None
}

} // verus!
