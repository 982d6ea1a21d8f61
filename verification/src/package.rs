//! Packages and groups: read-only views into a database's cache. The cache
//! owns its entries; values handed out are plain copies, so reading them can
//! never free or invalidate cache memory.

use vstd::prelude::*;

verus! {

use crate::strutil::clone_strings;

/// The mathematical content of one package cache entry.
#[verifier::ext_equal]
pub ghost struct PkgModel {
    /// The package name.
    pub name: Seq<char>,
    /// The full version string, epoch and release included.
    pub version: Seq<char>,
    /// The one-line description.
    pub desc: Seq<char>,
    /// The names of the groups this package belongs to.
    pub groups: Seq<Seq<char>>,
}

/// One entry of a database's package cache.
#[derive(Debug)]
pub struct Package {
    name: String,
    version: String,
    desc: String,
    groups: Vec<String>,
}

impl View for Package {
    type V = PkgModel;

    closed spec fn view(&self) -> PkgModel {
        PkgModel {
            name: self.name@,
            version: self.version@,
            desc: self.desc@,
            groups: self.groups.deep_view(),
        }
    }
}

impl DeepView for Package {
    type V = PkgModel;

    open spec fn deep_view(&self) -> PkgModel {
        self.view()
    }
}

impl Package {
    /// A cache entry built from its plain parts, as scanned out of a
    /// database file by the caller.
    pub fn new(name: String, version: String, desc: String, groups: Vec<String>) -> (r: Package)
        ensures
            r@ == (PkgModel {
                name: name@,
                version: version@,
                desc: desc@,
                groups: groups.deep_view(),
            }),
    {
        Package { name, version, desc, groups }
    }

    /// The package name.
    pub fn name(&self) -> (r: &str)
        ensures
            r@ == self@.name,
    {
        self.name.as_str()
    }

    /// The full version string.
    pub fn version(&self) -> (r: &str)
        ensures
            r@ == self@.version,
    {
        self.version.as_str()
    }

    /// The one-line description.
    pub fn desc(&self) -> (r: &str)
        ensures
            r@ == self@.desc,
    {
        self.desc.as_str()
    }

    /// The names of the groups this package belongs to.
    pub fn groups(&self) -> (r: &Vec<String>)
        ensures
            r.deep_view() == self@.groups,
    {
        &self.groups
    }
}

impl Clone for Package {
    /// An equal copy of the cache entry.
    fn clone(&self) -> (r: Package)
        ensures
            r@ == self@,
    {
        let r = Package {
            name: self.name.clone(),
            version: self.version.clone(),
            desc: self.desc.clone(),
            groups: clone_strings(&self.groups),
        };
        proof {
            assert(r@ =~= self@);
        }
        r
    }
}

/// The mathematical content of one group: its name and its member packages.
#[verifier::ext_equal]
pub ghost struct GroupModel {
    /// The group name.
    pub name: Seq<char>,
    /// The member packages, in cache order.
    pub pkgs: Seq<PkgModel>,
}

/// A named aggregate of packages from one database's cache.
#[derive(Debug)]
pub struct Group {
    name: String,
    pkgs: Vec<Package>,
}

impl View for Group {
    type V = GroupModel;

    closed spec fn view(&self) -> GroupModel {
        GroupModel { name: self.name@, pkgs: self.pkgs.deep_view() }
    }
}

impl DeepView for Group {
    type V = GroupModel;

    open spec fn deep_view(&self) -> GroupModel {
        self.view()
    }
}

impl Group {
    /// A group assembled from its name and members.
    pub(crate) fn assemble(name: String, pkgs: Vec<Package>) -> (r: Group)
        ensures
            r@ == (GroupModel { name: name@, pkgs: pkgs.deep_view() }),
    {
        Group { name, pkgs }
    }

    /// The group name.
    pub fn name(&self) -> (r: &str)
        ensures
            r@ == self@.name,
    {
        self.name.as_str()
    }

    /// The member packages, in cache order.
    pub fn packages(&self) -> (r: &Vec<Package>)
        ensures
            r.deep_view() == self@.pkgs,
    {
        &self.pkgs
    }
}

} // verus!
