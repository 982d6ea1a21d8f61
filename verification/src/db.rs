//! Registered sync databases: registration against a session handle, the
//! ordered server list, and queries into the package cache. A `Db` owns its
//! record; unregistering consumes the value, so no operation can reach a
//! database that is gone — the type system rejects it before any lower layer
//! could be involved.

use vstd::prelude::*;

use crate::error::Error;
use crate::handle::Alpm;
use crate::list::{AlpmList, FreeMethod};
use crate::package::{Group, Package};

verus! {

use crate::handle::{AlpmModel, remove_first, lemma_remove_first_at, lemma_remove_first_absent};
use crate::package::{GroupModel, PkgModel};
use crate::siglevel::SigLevel;
use crate::strutil::{chars_of, chars_eq, contains_nul, str_contains_nul, clone_strings, copy_range};
use crate::usage::{Usage, USAGE_ALL};

/// The mathematical content of one registered sync database.
#[verifier::ext_equal]
pub ghost struct DbModel {
    /// The database name, unique within its handle.
    pub name: Seq<char>,
    /// The signature-verification level it was registered with.
    pub siglevel: SigLevel,
    /// The purposes the database may serve.
    pub usage: Usage,
    /// The server URLs, in registration order.
    pub servers: Seq<Seq<char>>,
    /// The package cache, in scan order.
    pub pkgs: Seq<PkgModel>,
}

/// One registered sync database. It is produced by registration, mutated
/// through its methods, and destroyed by the consuming `unregister` or the
/// handle's teardown.
#[derive(Debug)]
pub struct Db {
    name: String,
    siglevel: SigLevel,
    usage: Usage,
    servers: Vec<String>,
    pkgs: Vec<Package>,
}

impl View for Db {
    type V = DbModel;

    closed spec fn view(&self) -> DbModel {
        DbModel {
            name: self.name@,
            siglevel: self.siglevel,
            usage: self.usage,
            servers: self.servers.deep_view(),
            pkgs: self.pkgs.deep_view(),
        }
    }
}

/// The record a fresh registration produces: the given name and level, every
/// usage permitted, no servers, an empty cache.
pub open spec fn fresh_db(name: Seq<char>, sig_level: SigLevel) -> DbModel {
    DbModel {
        name,
        siglevel: sig_level,
        usage: Usage { bits: USAGE_ALL },
        servers: Seq::empty(),
        pkgs: Seq::empty(),
    }
}

/// When a registration request is granted: the name is NUL-free and not yet
/// taken, and the signature level is a sane combination.
pub open spec fn register_allowed(m: AlpmModel, name: Seq<char>, sig_level: SigLevel) -> bool {
    &&& !name.contains('\0')
    &&& !m.registered.contains(name)
    &&& sig_level.spec_valid()
}

/// The database after one server URL is appended.
pub open spec fn add_server_model(m: DbModel, url: Seq<char>) -> DbModel {
    DbModel { servers: m.servers.push(url), ..m }
}

/// The database after its server list is replaced wholesale.
pub open spec fn set_servers_model(m: DbModel, urls: Seq<Seq<char>>) -> DbModel {
    DbModel { servers: urls, ..m }
}

/// Whether some string of the list holds an embedded NUL.
pub open spec fn any_contains_nul(l: Seq<Seq<char>>) -> bool {
    exists|i: int| 0 <= i < l.len() && l[i].contains('\0')
}

/// The first cache entry of the given name, scanning in cache order.
pub open spec fn find_pkg(pkgs: Seq<PkgModel>, name: Seq<char>) -> Option<PkgModel>
    decreases pkgs.len(),
{
    if pkgs.len() == 0 {
        None
    } else if pkgs[0].name == name {
        Some(pkgs[0])
    } else {
        find_pkg(pkgs.subrange(1, pkgs.len() as int), name)
    }
}

/// Whether a pattern matches a text. The dialect is the anchored-literal
/// core of the native search patterns: a leading `^` pins the match to the
/// start, a trailing `$` to the end, and the body in between is matched
/// literally, as a substring when unanchored.
pub open spec fn pat_start(pat: Seq<char>) -> int {
    if pat.len() > 0 && pat[0] == '^' {
        1int
    } else {
        0int
    }
}

pub open spec fn pat_end(pat: Seq<char>) -> int {
    if pat.len() > pat_start(pat) && pat[pat.len() - 1] == '$' {
        pat.len() - 1
    } else {
        pat.len() as int
    }
}

/// The literal body of a pattern, between its anchors.
pub open spec fn pat_core(pat: Seq<char>) -> Seq<char> {
    pat.subrange(pat_start(pat), pat_end(pat))
}

pub open spec fn pattern_matches(pat: Seq<char>, text: Seq<char>) -> bool {
    let core = pat_core(pat);
    if pat_start(pat) == 1 && pat_end(pat) < pat.len() {
        text == core
    } else if pat_start(pat) == 1 {
        core.len() <= text.len() && text.subrange(0, core.len() as int) == core
    } else if pat_end(pat) < pat.len() {
        core.len() <= text.len() && text.subrange(
            text.len() - core.len(),
            text.len() as int,
        ) == core
    } else {
        exists|k: int|
            0 <= k <= text.len() - core.len() && #[trigger] text.subrange(k, k + core.len())
                == core
    }
}

/// A regular-expression metacharacter the anchored-literal dialect does not
/// interpret inside a pattern body.
pub open spec fn is_meta(c: char) -> bool {
    c == '.' || c == '*' || c == '+' || c == '?' || c == '[' || c == ']' || c == '(' || c == ')'
        || c == '{' || c == '}' || c == '|' || c == '\\' || c == '^' || c == '$'
}

/// A pattern the dialect fully understands: beyond a leading `^` and a
/// trailing `$`, its body holds no regular-expression metacharacter.
pub open spec fn literal_pattern(pat: Seq<char>) -> bool {
    forall|i: int| 0 <= i < pat_core(pat).len() ==> !is_meta(#[trigger] pat_core(pat)[i])
}

/// Whether some pattern of the query falls outside the dialect.
pub open spec fn any_not_literal(l: Seq<Seq<char>>) -> bool {
    exists|i: int| 0 <= i < l.len() && !literal_pattern(l[i])
}

/// A package matches a pattern when its name or its description does.
pub open spec fn pkg_matches(p: PkgModel, pat: Seq<char>) -> bool {
    pattern_matches(pat, p.name) || pattern_matches(pat, p.desc)
}

/// A package answers a search when it matches every pattern of the query.
pub open spec fn matches_all(p: PkgModel, pats: Seq<Seq<char>>) -> bool {
    forall|i: int| 0 <= i < pats.len() ==> pkg_matches(p, pats[i])
}

/// The search result: the cache entries matching every pattern, in cache
/// order.
pub open spec fn search_model(pkgs: Seq<PkgModel>, pats: Seq<Seq<char>>) -> Seq<PkgModel>
    decreases pkgs.len(),
{
    if pkgs.len() == 0 {
        Seq::empty()
    } else {
        let rest = search_model(pkgs.drop_last(), pats);
        if matches_all(pkgs.last(), pats) {
            rest.push(pkgs.last())
        } else {
            rest
        }
    }
}

/// Distinct names folded in: `acc` extended with every name of `gs` not yet
/// present, in order.
pub open spec fn add_new_names(acc: Seq<Seq<char>>, gs: Seq<Seq<char>>) -> Seq<Seq<char>>
    decreases gs.len(),
{
    if gs.len() == 0 {
        acc
    } else if acc.contains(gs[0]) {
        add_new_names(acc, gs.subrange(1, gs.len() as int))
    } else {
        add_new_names(acc.push(gs[0]), gs.subrange(1, gs.len() as int))
    }
}

/// The distinct group names of the first `i` cache entries, in order of
/// first appearance.
pub open spec fn group_names_upto(pkgs: Seq<PkgModel>, i: int) -> Seq<Seq<char>>
    decreases i,
{
    if i <= 0 {
        Seq::empty()
    } else {
        add_new_names(group_names_upto(pkgs, i - 1), pkgs[i - 1].groups)
    }
}

/// The distinct group names of the whole cache, in order of first
/// appearance.
pub open spec fn group_names(pkgs: Seq<PkgModel>) -> Seq<Seq<char>> {
    group_names_upto(pkgs, pkgs.len() as int)
}

/// The members of a group: the cache entries listing it, in cache order.
pub open spec fn group_members(pkgs: Seq<PkgModel>, name: Seq<char>) -> Seq<PkgModel>
    decreases pkgs.len(),
{
    if pkgs.len() == 0 {
        Seq::empty()
    } else {
        let rest = group_members(pkgs.drop_last(), name);
        if pkgs.last().groups.contains(name) {
            rest.push(pkgs.last())
        } else {
            rest
        }
    }
}

impl Alpm {
    /// Registers a sync database of the given name and signature level.
    ///
    /// The name must be NUL-free to have a byte-string form, must not be
    /// registered already, and the level must be a sane combination; each
    /// refusal leaves the handle untouched and names its reason. On success
    /// the name is appended to the registry ledger and a fresh database
    /// record is handed out.
    pub fn register_syncdb(&mut self, name: &str, sig_level: SigLevel) -> (r: Result<Db, Error>)
        ensures
            name@.contains('\0') ==> r == Err::<Db, Error>(Error::InvalidName) && final(self)@
                == old(self)@,
            (!name@.contains('\0') && old(self)@.registered.contains(name@)) ==> r == Err::<
                Db,
                Error,
            >(Error::DuplicateName) && final(self)@ == old(self)@,
            (!name@.contains('\0') && !old(self)@.registered.contains(name@)
                && !sig_level.spec_valid()) ==> r == Err::<Db, Error>(Error::InvalidSigLevel)
                && final(self)@ == old(self)@,
            register_allowed(old(self)@, name@, sig_level) ==> (r matches Ok(db) && db@ == fresh_db(
                name@,
                sig_level,
            ) && final(self)@ == (AlpmModel {
                root: old(self)@.root,
                dbpath: old(self)@.dbpath,
                registered: old(self)@.registered.push(name@),
            })),
    {
        let nv = chars_of(name);
        if contains_nul(&nv) {
            return Err(Error::InvalidName);
        }
        if self.holds_name(&nv) {
            return Err(Error::DuplicateName);
        }
        if !sig_level.is_valid_level() {
            return Err(Error::InvalidSigLevel);
        }
        self.push_name(name);
        let db = Db {
            name: String::from_str(name),
            siglevel: sig_level,
            usage: Usage::all(),
            servers: Vec::new(),
            pkgs: Vec::new(),
        };
        proof {
            assert(db@ =~= fresh_db(name@, sig_level));
            assert(self@ =~= (AlpmModel {
                root: old(self)@.root,
                dbpath: old(self)@.dbpath,
                registered: old(self)@.registered.push(name@),
            }));
        }
        Ok(db)
    }

    /// Forgets every registered sync database. Idempotent: the ledger is
    /// empty afterwards whatever it held before.
    pub fn unregister_all_syncdbs(&mut self) -> (r: Result<(), Error>)
        ensures
            r == Ok::<(), Error>(()),
            final(self)@.root == old(self)@.root,
            final(self)@.dbpath == old(self)@.dbpath,
            final(self)@.registered == Seq::<Seq<char>>::empty(),
    {
        self.clear_names();
        Ok(())
    }
}

impl Db {
    /// Well-formedness carried by every database value: its server URLs are
    /// NUL-free. Registration establishes it and every mutation keeps it, so
    /// any list read back from a database can always be set again.
    #[verifier::type_invariant]
    spec fn wf(self) -> bool {
        forall|i: int|
            0 <= i < self.servers.deep_view().len() ==> !(#[trigger] self.servers.deep_view()[i]).contains('\0')
    }

    /// The database's identifier; always available while the value lives.
    pub fn name(&self) -> (r: &str)
        ensures
            r@ == self@.name,
    {
        self.name.as_str()
    }

    /// Unregisters the database, consuming it: after this call the value is
    /// gone and no further operation on it can even be written. The handle's
    /// ledger drops the first entry of this name.
    pub fn unregister(self, handle: &mut Alpm)
        ensures
            final(handle)@.root == old(handle)@.root,
            final(handle)@.dbpath == old(handle)@.dbpath,
            final(handle)@.registered == remove_first(old(handle)@.registered, self@.name),
    {
        let nv = chars_of(self.name.as_str());
        handle.drop_name(&nv);
    }

    /// Appends one server URL to the end of the list. A URL with an embedded
    /// NUL is refused and the list is untouched.
    pub fn add_server(&mut self, server: &str) -> (r: Result<(), Error>)
        ensures
            server@.contains('\0') ==> r == Err::<(), Error>(Error::InvalidName) && final(self)@
                == old(self)@,
            !server@.contains('\0') ==> r == Ok::<(), Error>(()) && final(self)@
                == add_server_model(old(self)@, server@),
    {
        proof {
            use_type_invariant(&*self);
        }
        if str_contains_nul(server) {
            return Err(Error::InvalidName);
        }
        let mut next = clone_strings(&self.servers);
        next.push(String::from_str(server));
        proof {
            assert(next.deep_view() =~= old(self)@.servers.push(server@));
        }
        self.servers = next;
        proof {
            assert(self@ =~= add_server_model(old(self)@, server@));
        }
        Ok(())
    }

    /// The current server URLs, in registration order. Each call re-reads
    /// the current state and hands out a fresh non-freeing view, so the
    /// sequence can be taken any number of times. Every database value
    /// keeps its server URLs NUL-free, so the list read here is always
    /// granted when handed back to `set_servers`, and by
    /// `lemma_set_servers_idempotent` that round trip is a no-op on the
    /// observable record.
    pub fn servers(&self) -> (r: AlpmList<String>)
        ensures
            r@ == self@.servers,
            r.spec_free_method() == FreeMethod::NoFree,
            !any_contains_nul(self@.servers),
    {
        proof {
            use_type_invariant(&*self);
            assert(!any_contains_nul(self@.servers)) by {
                if any_contains_nul(self@.servers) {
                    let i = choose|i: int|
                        0 <= i < self@.servers.len() && self@.servers[i].contains('\0');
                    assert(!self@.servers[i].contains('\0'));
                }
            }
        }
        AlpmList::from_vec(clone_strings(&self.servers), FreeMethod::NoFree)
    }

    /// Replaces the whole server list at once. If any entry holds an
    /// embedded NUL nothing changes and the conversion error is returned.
    #[verifier::loop_isolation(false)]
    pub fn set_servers(&mut self, list: Vec<String>) -> (r: Result<(), Error>)
        ensures
            any_contains_nul(list.deep_view()) ==> r == Err::<(), Error>(Error::InvalidName)
                && final(self)@ == old(self)@,
            !any_contains_nul(list.deep_view()) ==> r == Ok::<(), Error>(()) && final(self)@
                == set_servers_model(old(self)@, list.deep_view()),
    {
        proof {
            use_type_invariant(&*self);
        }
        let mut k: usize = 0;
        while k < list.len()
            invariant
                k <= list@.len(),
                forall|t: int| 0 <= t < k ==> !list.deep_view()[t].contains('\0'),
            decreases list@.len() - k,
        {
            if str_contains_nul(list[k].as_str()) {
                proof {
                    assert(list.deep_view()[k as int].contains('\0'));
                }
                return Err(Error::InvalidName);
            }
            k = k + 1;
        }
        self.servers = list;
        proof {
            assert(self@ =~= set_servers_model(old(self)@, self.servers.deep_view()));
        }
        Ok(())
    }

    /// Removes the first occurrence of a server URL. Removing a URL that is
    /// not listed is an error and leaves the list unchanged.
    #[verifier::loop_isolation(false)]
    pub fn remove_server(&mut self, server: &str) -> (r: Result<(), Error>)
        ensures
            server@.contains('\0') ==> r == Err::<(), Error>(Error::InvalidName) && final(self)@
                == old(self)@,
            (!server@.contains('\0') && old(self)@.servers.contains(server@)) ==> r == Ok::<
                (),
                Error,
            >(()) && final(self)@ == set_servers_model(
                old(self)@,
                remove_first(old(self)@.servers, server@),
            ),
            (!server@.contains('\0') && !old(self)@.servers.contains(server@)) ==> r == Err::<
                (),
                Error,
            >(Error::ServerNotFound) && final(self)@ == old(self)@,
    {
        proof {
            use_type_invariant(&*self);
        }
        let nv = chars_of(server);
        if contains_nul(&nv) {
            return Err(Error::InvalidName);
        }
        let mut k: usize = 0;
        while k < self.servers.len()
            invariant
                k <= self@.servers.len(),
                self@.servers.len() == self.servers@.len(),
                forall|t: int| 0 <= t < k ==> self@.servers[t] != server@,
                nv@ == server@,
                *self == *old(self),
            decreases self@.servers.len() - k,
        {
            let cur = chars_of(self.servers[k].as_str());
            if chars_eq(&cur, &nv) {
                proof {
                    assert(self@.servers[k as int] == server@);
                    lemma_remove_first_at(self@.servers, server@, k as int);
                }
                let mut next = clone_strings(&self.servers);
                next.remove(k);
                proof {
                    assert(next.deep_view() =~= old(self)@.servers.remove(k as int));
                }
                self.servers = next;
                proof {
                    assert(self@ =~= set_servers_model(
                        old(self)@,
                        remove_first(old(self)@.servers, server@),
                    ));
                }
                return Ok(());
            }
            k = k + 1;
        }
        proof {
            lemma_remove_first_absent(self@.servers, server@);
        }
        Err(Error::ServerNotFound)
    }

    /// Looks one package up by exact name. The first cache entry of that
    /// name is handed out as a copy; a NUL-carrying query is a conversion
    /// error, a missing name a lookup failure.
    #[verifier::loop_isolation(false)]
    pub fn pkg(&self, name: &str) -> (r: Result<Package, Error>)
        ensures
            name@.contains('\0') ==> r == Err::<Package, Error>(Error::InvalidName),
            !name@.contains('\0') ==> match find_pkg(self@.pkgs, name@) {
                Some(p) => r matches Ok(q) && q@ == p,
                None => r == Err::<Package, Error>(Error::PkgNotFound),
            },
    {
        let nv = chars_of(name);
        if contains_nul(&nv) {
            return Err(Error::InvalidName);
        }
        let ghost full = self@.pkgs;
        proof {
            assert(full.subrange(0, full.len() as int) =~= full);
        }
        let mut k: usize = 0;
        while k < self.pkgs.len()
            invariant
                k <= self.pkgs@.len(),
                full == self@.pkgs,
                full.len() == self.pkgs@.len(),
                nv@ == name@,
                find_pkg(full, name@) == find_pkg(full.subrange(k as int, full.len() as int), name@),
            decreases self.pkgs@.len() - k,
        {
            let ghost suffix = full.subrange(k as int, full.len() as int);
            let pn = chars_of(self.pkgs[k].name());
            if chars_eq(&pn, &nv) {
                proof {
                    assert(suffix[0] == full[k as int]);
                    assert(find_pkg(suffix, name@) == Some(full[k as int]));
                }
                return Ok(self.pkgs[k].clone());
            }
            k = k + 1;
            proof {
                assert(suffix[0] == full[k - 1]);
                assert(suffix.subrange(1, suffix.len() as int) =~= full.subrange(
                    k as int,
                    full.len() as int,
                ));
            }
        }
        proof {
            assert(full.subrange(full.len() as int, full.len() as int).len() == 0);
        }
        Err(Error::PkgNotFound)
    }

    /// Every cache entry, in cache order, as a non-freeing list view over
    /// copies: the cache itself stays with the database.
    pub fn pkgs(&self) -> (r: Result<AlpmList<Package>, Error>)
        ensures
            r matches Ok(l) && l@ == self@.pkgs && l.spec_free_method() == FreeMethod::NoFree,
    {
        Ok(AlpmList::from_vec(clone_pkgs(&self.pkgs), FreeMethod::NoFree))
    }

    /// Searches the cache. Every pattern must be NUL-free and stay within
    /// the anchored-literal dialect — beyond a leading `^` and a trailing
    /// `$`, a pattern body holding regular-expression metacharacters is
    /// refused rather than silently matched literally. A package answers
    /// when each pattern matches its name or description. The result carries
    /// the shallow-free policy: its list skeleton is the caller's to drop,
    /// while the entries remain cache property. An empty result surfaces as
    /// a lookup failure, following the native convention of a null result
    /// list.
    #[verifier::loop_isolation(false)]
    pub fn search(&self, patterns: &Vec<String>) -> (r: Result<AlpmList<Package>, Error>)
        ensures
            any_contains_nul(patterns.deep_view()) ==> r == Err::<AlpmList<Package>, Error>(
                Error::InvalidName,
            ),
            (!any_contains_nul(patterns.deep_view()) && any_not_literal(patterns.deep_view()))
                ==> r == Err::<AlpmList<Package>, Error>(Error::UnsupportedPattern),
            (!any_contains_nul(patterns.deep_view()) && !any_not_literal(patterns.deep_view())
                && search_model(self@.pkgs, patterns.deep_view()).len() == 0) ==> r == Err::<
                AlpmList<Package>,
                Error,
            >(Error::PkgNotFound),
            (!any_contains_nul(patterns.deep_view()) && !any_not_literal(patterns.deep_view())
                && search_model(self@.pkgs, patterns.deep_view()).len() > 0) ==> (r matches Ok(l)
                && l@ == search_model(self@.pkgs, patterns.deep_view()) && l.spec_free_method()
                == FreeMethod::FreeList),
    {
        let pc = patterns_chars(patterns);
        let mut k: usize = 0;
        while k < pc.len()
            invariant
                k <= pc@.len(),
                pc.deep_view() == patterns.deep_view(),
                pc@.len() == patterns.deep_view().len(),
                forall|t: int| 0 <= t < k ==> !patterns.deep_view()[t].contains('\0'),
            decreases pc@.len() - k,
        {
            proof {
                assert(pc.deep_view()[k as int] =~= pc@[k as int]@);
            }
            if contains_nul(&pc[k]) {
                proof {
                    assert(patterns.deep_view()[k as int].contains('\0'));
                }
                return Err(Error::InvalidName);
            }
            k = k + 1;
        }
        let mut j: usize = 0;
        while j < pc.len()
            invariant
                j <= pc@.len(),
                forall|t: int| 0 <= t < j ==> literal_pattern(patterns.deep_view()[t]),
            decreases pc@.len() - j,
        {
            proof {
                assert(pc.deep_view()[j as int] =~= pc@[j as int]@);
            }
            if !literal_pattern_exec(&pc[j]) {
                proof {
                    assert(!literal_pattern(patterns.deep_view()[j as int]));
                }
                return Err(Error::UnsupportedPattern);
            }
            j = j + 1;
        }
        let mut res: Vec<Package> = Vec::new();
        let mut i: usize = 0;
        while i < self.pkgs.len()
            invariant
                i <= self.pkgs@.len(),
                self@.pkgs.len() == self.pkgs@.len(),
                pc.deep_view() == patterns.deep_view(),
                res.deep_view() =~= search_model(
                    self@.pkgs.subrange(0, i as int),
                    patterns.deep_view(),
                ),
            decreases self.pkgs@.len() - i,
        {
            let ghost prefix = self@.pkgs.subrange(0, i as int);
            if matches_all_exec(&self.pkgs[i], &pc) {
                res.push(self.pkgs[i].clone());
            }
            i = i + 1;
            proof {
                let cur = self@.pkgs.subrange(0, i as int);
                assert(cur.drop_last() =~= prefix);
                assert(cur.last() == self@.pkgs[i - 1]);
            }
        }
        proof {
            assert(self@.pkgs.subrange(0, self@.pkgs.len() as int) =~= self@.pkgs);
        }
        if res.len() == 0 {
            proof {
                assert(res.deep_view().len() == 0);
            }
            Err(Error::PkgNotFound)
        } else {
            Ok(AlpmList::from_vec(res, FreeMethod::FreeList))
        }
    }

    /// Looks one group up by exact name: its members are the cache entries
    /// listing that group, in cache order. A group nobody lists does not
    /// exist.
    pub fn group(&self, name: &str) -> (r: Result<Group, Error>)
        ensures
            name@.contains('\0') ==> r == Err::<Group, Error>(Error::InvalidName),
            (!name@.contains('\0') && group_members(self@.pkgs, name@).len() == 0) ==> r == Err::<
                Group,
                Error,
            >(Error::GroupNotFound),
            (!name@.contains('\0') && group_members(self@.pkgs, name@).len() > 0) ==> (r matches Ok(
                g,
            ) && g@ == (GroupModel { name: name@, pkgs: group_members(self@.pkgs, name@) })),
    {
        let nv = chars_of(name);
        if contains_nul(&nv) {
            return Err(Error::InvalidName);
        }
        let members = collect_members(&self.pkgs, &nv);
        if members.len() == 0 {
            proof {
                assert(members.deep_view().len() == 0);
            }
            return Err(Error::GroupNotFound);
        }
        let g = Group::assemble(String::from_str(name), members);
        proof {
            assert(g@ =~= (GroupModel { name: name@, pkgs: group_members(self@.pkgs, name@) }));
        }
        Ok(g)
    }

    /// Enumerates the group cache: every group some cache entry lists, in
    /// order of first appearance, each with its members in cache order. The
    /// group cache is derived from (and owned alongside) the package cache,
    /// so the view is non-freeing.
    #[verifier::loop_isolation(false)]
    pub fn groups(&self) -> (r: Result<AlpmList<Group>, Error>)
        ensures
            r matches Ok(l) && l@.len() == group_names(self@.pkgs).len() && (forall|i: int|
                0 <= i < l@.len() ==> (#[trigger] l@[i]).name == group_names(self@.pkgs)[i]
                    && l@[i].pkgs == group_members(self@.pkgs, group_names(self@.pkgs)[i]))
                && l.spec_free_method() == FreeMethod::NoFree,
    {
        let names = collect_group_names(&self.pkgs);
        let mut gs: Vec<Group> = Vec::new();
        let mut k: usize = 0;
        while k < names.len()
            invariant
                k <= names@.len(),
                names.deep_view() == group_names(self@.pkgs),
                names.deep_view().len() == names@.len(),
                gs@.len() == k,
                forall|t: int|
                    0 <= t < k ==> (#[trigger] gs.deep_view()[t]).name == group_names(
                        self@.pkgs,
                    )[t] && gs.deep_view()[t].pkgs == group_members(
                        self@.pkgs,
                        group_names(self@.pkgs)[t],
                    ),
            decreases names@.len() - k,
        {
            let nv = chars_of(names[k].as_str());
            let members = collect_members(&self.pkgs, &nv);
            let g = Group::assemble(names[k].clone(), members);
            let ghost prev = gs.deep_view();
            gs.push(g);
            proof {
                assert(forall|t: int| 0 <= t < k ==> #[trigger] gs.deep_view()[t] == prev[t]);
                assert(gs.deep_view()[k as int] == g@);
                assert(g@.name == names.deep_view()[k as int]);
                assert(g@.pkgs == group_members(self@.pkgs, group_names(self@.pkgs)[k as int]));
            }
            k = k + 1;
        }
        Ok(AlpmList::from_vec(gs, FreeMethod::NoFree))
    }

    /// The signature-verification level the database was registered with.
    pub fn siglevel(&self) -> (r: SigLevel)
        ensures
            r == self@.siglevel,
    {
        self.siglevel
    }

    /// Triggers a validity check. A record built through this interface is
    /// well-formed by construction, so the check always passes; failures of
    /// the on-disk database belong to the loader boundary that fills the
    /// cache.
    pub fn is_valid(&self) -> (r: Result<(), Error>)
        ensures
            r == Ok::<(), Error>(()),
    {
        Ok(())
    }

    /// Sets the purposes this database may serve.
    pub fn set_usage(&mut self, usage: Usage) -> (r: Result<(), Error>)
        ensures
            r == Ok::<(), Error>(()),
            final(self)@ == (DbModel { usage, ..old(self)@ }),
    {
        proof {
            use_type_invariant(&*self);
        }
        self.usage = usage;
        proof {
            assert(self@ =~= (DbModel { usage, ..old(self)@ }));
        }
        Ok(())
    }

    /// Reads the purposes this database may serve.
    pub fn usage(&self) -> (r: Result<Usage, Error>)
        ensures
            r == Ok::<Usage, Error>(self@.usage),
    {
        Ok(self.usage)
    }

    /// Installs the package cache contents, as scanned out of the database
    /// files by the session's loader. Entries arrive in scan order and
    /// replace whatever the cache held.
    pub fn load_pkgcache(&mut self, pkgs: Vec<Package>)
        ensures
            final(self)@ == (DbModel { pkgs: pkgs.deep_view(), ..old(self)@ }),
    {
        proof {
            use_type_invariant(&*self);
        }
        self.pkgs = pkgs;
        proof {
            assert(self@ =~= (DbModel { pkgs: self.pkgs.deep_view(), ..old(self)@ }));
        }
    }
}

/// An owned copy of a list of packages, equal entry by entry.
fn clone_pkgs(v: &Vec<Package>) -> (r: Vec<Package>)
    ensures
        r.deep_view() == v.deep_view(),
{
    let mut r: Vec<Package> = Vec::new();
    let mut k: usize = 0;
    while k < v.len()
        invariant
            k <= v@.len(),
            r@.len() == k,
            forall|t: int| 0 <= t < k ==> r@[t]@ == v@[t]@,
        decreases v@.len() - k,
    {
        r.push(v[k].clone());
        k = k + 1;
    }
    proof {
        assert(r.deep_view() =~= v.deep_view());
    }
    r
}

/// The characters of each pattern, as indexable vectors.
fn patterns_chars(patterns: &Vec<String>) -> (r: Vec<Vec<char>>)
    ensures
        r.deep_view() == patterns.deep_view(),
        r@.len() == patterns@.len(),
{
    let mut r: Vec<Vec<char>> = Vec::new();
    let mut k: usize = 0;
    while k < patterns.len()
        invariant
            k <= patterns@.len(),
            r@.len() == k,
            forall|t: int| 0 <= t < k ==> r@[t]@ == patterns@[t]@,
        decreases patterns@.len() - k,
    {
        r.push(chars_of(patterns[k].as_str()));
        k = k + 1;
    }
    proof {
        assert forall|t: int| 0 <= t < r@.len() implies r.deep_view()[t] == patterns.deep_view()[t] by {
            assert(r@[t].deep_view() =~= r@[t]@);
        }
        assert(r.deep_view() =~= patterns.deep_view());
    }
    r
}

/// Whether `text[k..]` starts with `core`.
fn segment_eq(text: &Vec<char>, k: usize, core: &Vec<char>) -> (r: bool)
    requires
        k + core@.len() <= text@.len(),
    ensures
        r == (text@.subrange(k as int, k + core@.len()) == core@),
{
    let tl = text.len();
    let cl = core.len();
    let seg = copy_range(text, k, k + cl);
    chars_eq(&seg, core)
}

fn is_meta_char(c: char) -> (r: bool)
    ensures
        r == is_meta(c),
{
    c == '.' || c == '*' || c == '+' || c == '?' || c == '[' || c == ']' || c == '(' || c == ')'
        || c == '{' || c == '}' || c == '|' || c == '\\' || c == '^' || c == '$'
}

/// Whether the pattern stays within the anchored-literal dialect: no
/// metacharacter in its body between the anchors.
#[verifier::loop_isolation(false)]
fn literal_pattern_exec(pat: &Vec<char>) -> (r: bool)
    ensures
        r == literal_pattern(pat@),
{
    let n = pat.len();
    let anchored_start = n > 0 && pat[0] == '^';
    let s: usize = if anchored_start {
        1
    } else {
        0
    };
    let anchored_end = n > s && pat[n - 1] == '$';
    let e: usize = if anchored_end {
        n - 1
    } else {
        n
    };
    proof {
        assert(s as int == pat_start(pat@));
        assert(e as int == pat_end(pat@));
    }
    let mut k: usize = s;
    while k < e
        invariant
            s <= k <= e,
            forall|t: int| s <= t < k ==> !is_meta(pat@[t]),
        decreases e - k,
    {
        if is_meta_char(pat[k]) {
            proof {
                assert(pat_core(pat@)[k - s] == pat@[k as int]);
            }
            return false;
        }
        k = k + 1;
    }
    proof {
        assert forall|i: int| 0 <= i < pat_core(pat@).len() implies !is_meta(
            #[trigger] pat_core(pat@)[i],
        ) by {
            assert(pat_core(pat@)[i] == pat@[pat_start(pat@) + i]);
        }
    }
    true
}

/// Whether the pattern matches the text, in the anchored-literal dialect.
#[verifier::loop_isolation(false)]
fn pattern_match_exec(pat: &Vec<char>, text: &Vec<char>) -> (r: bool)
    ensures
        r == pattern_matches(pat@, text@),
{
    let n = pat.len();
    let anchored_start = n > 0 && pat[0] == '^';
    let s: usize = if anchored_start {
        1
    } else {
        0
    };
    let anchored_end = n > s && pat[n - 1] == '$';
    let e: usize = if anchored_end {
        n - 1
    } else {
        n
    };
    let core = copy_range(pat, s, e);
    proof {
        assert(s as int == pat_start(pat@));
        assert(e as int == pat_end(pat@));
        assert(core@ == pat_core(pat@));
        assert(anchored_start == (pat_start(pat@) == 1int));
        assert(anchored_end == (pat_end(pat@) < pat@.len()));
    }
    if anchored_start && anchored_end {
        chars_eq(text, &core)
    } else if anchored_start {
        if core.len() <= text.len() {
            segment_eq(text, 0, &core)
        } else {
            false
        }
    } else if anchored_end {
        if core.len() <= text.len() {
            segment_eq(text, text.len() - core.len(), &core)
        } else {
            false
        }
    } else {
        if core.len() > text.len() {
            return false;
        }
        let last = text.len() - core.len();
        let mut k: usize = 0;
        while k < last
            invariant
                k <= last,
                forall|t: int|
                    0 <= t < k ==> #[trigger] text@.subrange(t, t + core@.len()) != core@,
            decreases last - k,
        {
            if segment_eq(text, k, &core) {
                return true;
            }
            k = k + 1;
        }
        let hit = segment_eq(text, last, &core);
        proof {
            if !hit {
                assert(forall|t: int|
                    0 <= t <= text@.len() - core@.len() ==> #[trigger] text@.subrange(
                        t,
                        t + core@.len(),
                    ) != core@);
            }
        }
        hit
    }
}

/// Whether the package answers every pattern of the query.
#[verifier::loop_isolation(false)]
fn matches_all_exec(p: &Package, pats: &Vec<Vec<char>>) -> (r: bool)
    ensures
        r == matches_all(p@, pats.deep_view()),
{
    let namev = chars_of(p.name());
    let descv = chars_of(p.desc());
    let mut k: usize = 0;
    while k < pats.len()
        invariant
            k <= pats@.len(),
            namev@ == p@.name,
            descv@ == p@.desc,
            pats.deep_view().len() == pats@.len(),
            forall|t: int| 0 <= t < k ==> pkg_matches(p@, pats.deep_view()[t]),
        decreases pats@.len() - k,
    {
        proof {
            assert(pats.deep_view()[k as int] =~= pats@[k as int]@);
        }
        let m1 = pattern_match_exec(&pats[k], &namev);
        if !m1 {
            let m2 = pattern_match_exec(&pats[k], &descv);
            if !m2 {
                proof {
                    assert(!pkg_matches(p@, pats.deep_view()[k as int]));
                }
                return false;
            }
        }
        k = k + 1;
    }
    true
}

/// The members of the named group, in cache order, as copies.
#[verifier::loop_isolation(false)]
fn collect_members(pkgs: &Vec<Package>, n: &Vec<char>) -> (r: Vec<Package>)
    ensures
        r.deep_view() == group_members(pkgs.deep_view(), n@),
{
    let mut r: Vec<Package> = Vec::new();
    let mut i: usize = 0;
    while i < pkgs.len()
        invariant
            i <= pkgs@.len(),
            pkgs.deep_view().len() == pkgs@.len(),
            r.deep_view() =~= group_members(pkgs.deep_view().subrange(0, i as int), n@),
        decreases pkgs@.len() - i,
    {
        let ghost prefix = pkgs.deep_view().subrange(0, i as int);
        if pkg_in_group(&pkgs[i], n) {
            r.push(pkgs[i].clone());
        }
        i = i + 1;
        proof {
            let cur = pkgs.deep_view().subrange(0, i as int);
            assert(cur.drop_last() =~= prefix);
            assert(cur.last() == pkgs.deep_view()[i - 1]);
        }
    }
    proof {
        assert(pkgs.deep_view().subrange(0, pkgs.deep_view().len() as int) =~= pkgs.deep_view());
    }
    r
}

/// Whether the list holds a string equal to `n`.
#[verifier::loop_isolation(false)]
fn vec_holds_str(v: &Vec<String>, n: &Vec<char>) -> (r: bool)
    ensures
        r == v.deep_view().contains(n@),
{
    let mut k: usize = 0;
    while k < v.len()
        invariant
            k <= v@.len(),
            v.deep_view().len() == v@.len(),
            forall|t: int| 0 <= t < k ==> v.deep_view()[t] != n@,
        decreases v@.len() - k,
    {
        let cur = chars_of(v[k].as_str());
        if chars_eq(&cur, n) {
            proof {
                assert(v.deep_view()[k as int] == n@);
            }
            return true;
        }
        k = k + 1;
    }
    false
}

/// The distinct group names of the cache, in order of first appearance.
#[verifier::loop_isolation(false)]
fn collect_group_names(pkgs: &Vec<Package>) -> (r: Vec<String>)
    ensures
        r.deep_view() == group_names(pkgs.deep_view()),
{
    let mut names: Vec<String> = Vec::new();
    let mut i: usize = 0;
    while i < pkgs.len()
        invariant
            i <= pkgs@.len(),
            pkgs.deep_view().len() == pkgs@.len(),
            names.deep_view() == group_names_upto(pkgs.deep_view(), i as int),
        decreases pkgs@.len() - i,
    {
        let gs = pkgs[i].groups();
        let ghost acc0 = names.deep_view();
        let ghost gseq = pkgs.deep_view()[i as int].groups;
        proof {
            assert(gs.deep_view() == gseq);
            assert(gseq.subrange(0, gseq.len() as int) =~= gseq);
        }
        let mut j: usize = 0;
        while j < gs.len()
            invariant
                j <= gs@.len(),
                gseq.len() == gs@.len(),
                gs.deep_view() == gseq,
                add_new_names(acc0, gseq) == add_new_names(
                    names.deep_view(),
                    gseq.subrange(j as int, gseq.len() as int),
                ),
            decreases gs@.len() - j,
        {
            let ghost suffix = gseq.subrange(j as int, gseq.len() as int);
            let ghost acc_here = names.deep_view();
            let gname = chars_of(gs[j].as_str());
            proof {
                assert(gname@ == gseq[j as int]);
                assert(suffix[0] == gseq[j as int]);
                assert(suffix.subrange(1, suffix.len() as int) =~= gseq.subrange(
                    j + 1,
                    gseq.len() as int,
                ));
            }
            let present = vec_holds_str(&names, &gname);
            if !present {
                names.push(gs[j].clone());
                proof {
                    assert(names.deep_view() =~= acc_here.push(gname@));
                }
            }
            j = j + 1;
        }
        proof {
            assert(gseq.subrange(gseq.len() as int, gseq.len() as int).len() == 0);
            assert(group_names_upto(pkgs.deep_view(), i + 1) == add_new_names(acc0, gseq));
        }
        i = i + 1;
    }
    proof {
        assert(names.deep_view() == group_names(pkgs.deep_view()));
    }
    names
}

/// Whether the package lists the named group.
#[verifier::loop_isolation(false)]
fn pkg_in_group(p: &Package, n: &Vec<char>) -> (r: bool)
    ensures
        r == p@.groups.contains(n@),
{
    let gs = p.groups();
    let mut k: usize = 0;
    while k < gs.len()
        invariant
            k <= gs@.len(),
            gs.deep_view() == p@.groups,
            gs.deep_view().len() == gs@.len(),
            forall|t: int| 0 <= t < k ==> p@.groups[t] != n@,
        decreases gs@.len() - k,
    {
        let cur = chars_of(gs[k].as_str());
        if chars_eq(&cur, n) {
            proof {
                assert(p@.groups[k as int] == n@);
            }
            return true;
        }
        k = k + 1;
    }
    false
}

/// Law: a granted registration hands out a database carrying exactly the
/// registered name, so reading the name back returns the name registered.
pub proof fn lemma_register_name_round_trip(m: AlpmModel, name: Seq<char>, sig_level: SigLevel)
    requires
        register_allowed(m, name, sig_level),
    ensures
        fresh_db(name, sig_level).name == name,
{
}

/// The database after a whole run of server additions, first URL first.
pub open spec fn add_servers_model(m: DbModel, urls: Seq<Seq<char>>) -> DbModel
    decreases urls.len(),
{
    if urls.len() == 0 {
        m
    } else {
        add_servers_model(add_server_model(m, urls[0]), urls.subrange(1, urls.len() as int))
    }
}

/// Law: any run of server additions appends exactly its URLs, in the order
/// added, and touches nothing else of the record.
pub proof fn lemma_add_servers_in_order(m: DbModel, urls: Seq<Seq<char>>)
    ensures
        add_servers_model(m, urls) == (DbModel { servers: m.servers + urls, ..m }),
    decreases urls.len(),
{
    if urls.len() == 0 {
        assert(m.servers + urls =~= m.servers);
        assert(add_servers_model(m, urls) =~= (DbModel { servers: m.servers + urls, ..m }));
    } else {
        let m1 = add_server_model(m, urls[0]);
        let rest = urls.subrange(1, urls.len() as int);
        lemma_add_servers_in_order(m1, rest);
        assert(m1.servers + rest =~= m.servers + urls);
        assert(add_servers_model(m, urls) =~= (DbModel { servers: m.servers + urls, ..m }));
    }
}

/// Law: replacing the server list and reading it back yields exactly the
/// list that was set, however often the round trip is repeated.
pub proof fn lemma_set_servers_round_trip(m: DbModel, urls: Seq<Seq<char>>)
    ensures
        set_servers_model(m, urls).servers == urls,
        set_servers_model(set_servers_model(m, urls), urls) == set_servers_model(m, urls),
{
    assert(set_servers_model(set_servers_model(m, urls), urls) =~= set_servers_model(m, urls));
}

/// Law: setting the server list to its current value is a no-op on the
/// observable record.
pub proof fn lemma_set_servers_idempotent(m: DbModel)
    ensures
        set_servers_model(m, m.servers) == m,
{
    assert(set_servers_model(m, m.servers) =~= m);
}


/// Law: when no cache entry answers the query, the search result is empty.
pub proof fn lemma_search_no_match(pkgs: Seq<PkgModel>, pats: Seq<Seq<char>>)
    requires
        forall|t: int| 0 <= t < pkgs.len() ==> !matches_all(#[trigger] pkgs[t], pats),
    ensures
        search_model(pkgs, pats) == Seq::<PkgModel>::empty(),
    decreases pkgs.len(),
{
    if pkgs.len() > 0 {
        lemma_search_no_match(pkgs.drop_last(), pats);
    }
}

/// Law: against a cache holding exactly one entry that answers the query,
/// the search result is that single entry alone, so its name is the matching
/// entry's name.
pub proof fn lemma_search_single_match(pkgs: Seq<PkgModel>, pats: Seq<Seq<char>>, i: int)
    requires
        0 <= i < pkgs.len(),
        matches_all(pkgs[i], pats),
        forall|t: int| 0 <= t < pkgs.len() && t != i ==> !matches_all(#[trigger] pkgs[t], pats),
    ensures
        search_model(pkgs, pats) == seq![pkgs[i]],
    decreases pkgs.len(),
{
    if i == pkgs.len() - 1 {
        lemma_search_no_match(pkgs.drop_last(), pats);
        assert(search_model(pkgs, pats) =~= seq![pkgs[i]]);
    } else {
        lemma_search_single_match(pkgs.drop_last(), pats, i);
    }
}

} // verus!
