//! The session handle: root of the ownership graph. The handle owns the
//! ledger of registered sync-database names; databases, packages and groups
//! are only valid within the session that produced them.

use vstd::prelude::*;

use crate::error::Error;

verus! {

use crate::strutil::{chars_of, chars_eq, str_contains_nul};

/// The mathematical content of a session handle.
#[verifier::ext_equal]
pub ghost struct AlpmModel {
    /// The filesystem root the session was opened against.
    pub root: Seq<char>,
    /// The path of the database directory.
    pub dbpath: Seq<char>,
    /// The names of the registered sync databases, in registration order.
    pub registered: Seq<Seq<char>>,
}

/// An open session against a package root and database path. It keeps the
/// registry ledger: which sync-database names are taken, in which order.
#[derive(Debug)]
pub struct Alpm {
    root: String,
    dbpath: String,
    registered: Vec<String>,
}

impl View for Alpm {
    type V = AlpmModel;

    closed spec fn view(&self) -> AlpmModel {
        AlpmModel { root: self.root@, dbpath: self.dbpath@, registered: self.registered.deep_view() }
    }
}

impl Alpm {
    /// Opens a session against `root` and `dbpath`. Both paths must be
    /// NUL-free; the fresh session has no sync database registered.
    pub fn new(root: &str, dbpath: &str) -> (r: Result<Alpm, Error>)
        ensures
            (root@.contains('\0') || dbpath@.contains('\0')) ==> r == Err::<Alpm, Error>(
                Error::InvalidName,
            ),
            (!root@.contains('\0') && !dbpath@.contains('\0')) ==> (r matches Ok(h) && h@ == (
            AlpmModel { root: root@, dbpath: dbpath@, registered: Seq::<Seq<char>>::empty() })),
    {
        if str_contains_nul(root) || str_contains_nul(dbpath) {
            return Err(Error::InvalidName);
        }
        let h = Alpm {
            root: String::from_str(root),
            dbpath: String::from_str(dbpath),
            registered: Vec::new(),
        };
        proof {
            assert(h@ =~= (AlpmModel {
                root: root@,
                dbpath: dbpath@,
                registered: Seq::<Seq<char>>::empty(),
            }));
        }
        Ok(h)
    }

    /// The filesystem root of the session.
    pub fn root(&self) -> (r: &str)
        ensures
            r@ == self@.root,
    {
        self.root.as_str()
    }

    /// The database directory of the session.
    pub fn dbpath(&self) -> (r: &str)
        ensures
            r@ == self@.dbpath,
    {
        self.dbpath.as_str()
    }

    /// How many sync databases are registered.
    pub fn syncdb_count(&self) -> (r: usize)
        ensures
            r == self@.registered.len(),
    {
        self.registered.len()
    }

    /// Whether a database of this name is registered.
    pub(crate) fn holds_name(&self, n: &Vec<char>) -> (r: bool)
        ensures
            r == self@.registered.contains(n@),
    {
        let mut k: usize = 0;
        while k < self.registered.len()
            invariant
                k <= self@.registered.len(),
                self@.registered.len() == self.registered@.len(),
                forall|t: int| 0 <= t < k ==> self@.registered[t] != n@,
            decreases self@.registered.len() - k,
        {
            let cur = chars_of(self.registered[k].as_str());
            if chars_eq(&cur, n) {
                proof {
                    assert(self@.registered[k as int] == n@);
                }
                return true;
            }
            k = k + 1;
        }
        false
    }

    /// Appends a name to the ledger.
    pub(crate) fn push_name(&mut self, name: &str)
        ensures
            final(self)@.root == old(self)@.root,
            final(self)@.dbpath == old(self)@.dbpath,
            final(self)@.registered == old(self)@.registered.push(name@),
    {
        self.registered.push(String::from_str(name));
        proof {
            assert(self@.registered =~= old(self)@.registered.push(name@));
        }
    }

    /// Empties the ledger.
    pub(crate) fn clear_names(&mut self)
        ensures
            final(self)@.root == old(self)@.root,
            final(self)@.dbpath == old(self)@.dbpath,
            final(self)@.registered == Seq::<Seq<char>>::empty(),
    {
        self.registered = Vec::new();
        proof {
            assert(self@.registered =~= Seq::<Seq<char>>::empty());
        }
    }

    /// Removes the first ledger entry equal to `n`, if any; the ledger is
    /// unchanged when no entry matches.
    pub(crate) fn drop_name(&mut self, n: &Vec<char>)
        ensures
            final(self)@.root == old(self)@.root,
            final(self)@.dbpath == old(self)@.dbpath,
            final(self)@.registered == remove_first(old(self)@.registered, n@),
    {
        let mut k: usize = 0;
        while k < self.registered.len()
            invariant
                k <= self@.registered.len(),
                self@.registered.len() == self.registered@.len(),
                forall|t: int| 0 <= t < k ==> self@.registered[t] != n@,
                *self == *old(self),
            decreases self@.registered.len() - k,
        {
            let cur = chars_of(self.registered[k].as_str());
            if chars_eq(&cur, n) {
                proof {
                    lemma_remove_first_at(self@.registered, n@, k as int);
                }
                self.registered.remove(k);
                proof {
                    assert(self@.registered =~= old(self)@.registered.remove(k as int));
                }
                return ;
            }
            k = k + 1;
        }
        proof {
            lemma_remove_first_absent(self@.registered, n@);
        }
    }
}

/// The ledger with the first occurrence of `n` removed, and unchanged when
/// `n` does not occur.
pub open spec fn remove_first(s: Seq<Seq<char>>, n: Seq<char>) -> Seq<Seq<char>>
    decreases s.len(),
{
    if s.len() == 0 {
        s
    } else if s[0] == n {
        s.subrange(1, s.len() as int)
    } else {
        seq![s[0]] + remove_first(s.subrange(1, s.len() as int), n)
    }
}

pub proof fn lemma_remove_first_at(s: Seq<Seq<char>>, n: Seq<char>, i: int)
    requires
        0 <= i < s.len(),
        s[i] == n,
        forall|t: int| 0 <= t < i ==> s[t] != n,
    ensures
        remove_first(s, n) == s.remove(i),
    decreases i,
{
    if i == 0 {
        assert(remove_first(s, n) =~= s.remove(0));
    } else {
        let rest = s.subrange(1, s.len() as int);
        lemma_remove_first_at(rest, n, i - 1);
        assert(seq![s[0]] + rest.remove(i - 1) =~= s.remove(i));
    }
}

pub proof fn lemma_remove_first_absent(s: Seq<Seq<char>>, n: Seq<char>)
    requires
        forall|t: int| 0 <= t < s.len() ==> s[t] != n,
    ensures
        remove_first(s, n) == s,
    decreases s.len(),
{
    if s.len() > 0 {
        let rest = s.subrange(1, s.len() as int);
        lemma_remove_first_absent(rest, n);
        assert(seq![s[0]] + rest =~= s);
    }
}

} // verus!
