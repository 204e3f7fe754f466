use vstd::prelude::*;

use crate::path::AbsPath;

verus! {

/// The tool's resource paths: the configuration root, the route
/// configuration store, the template asset trees, and the reference
/// command catalog.
pub struct Directory {
    pub root: AbsPath,
    pub config: AbsPath,
    pub templates: AbsPath,
    pub commands: AbsPath,
}

impl Directory {
    /// Resolve the resource paths under a configuration root directory.
    pub fn from_root(root: AbsPath) -> (d: Directory)
        ensures
            d.root@ == root@,
            d.config@ == root@.push("config.json"@),
            d.templates@ == root@.push("templates"@),
            d.commands@ == root@.push("commands.json"@),
    {
        let config = root.child(&String::from_str("config.json"));
        let templates = root.child(&String::from_str("templates"));
        let commands = root.child(&String::from_str("commands.json"));
        Directory { root, config, templates, commands }
    }
}

} // verus!
