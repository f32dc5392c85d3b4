//! Addressing entries in a vault payload. Names are handles matched without
//! regard to ASCII case, and no two entries share a name in that sense.

use vstd::prelude::*;

use crate::error::{JingleError, Result};
use crate::model::{Entry, VaultPayload};
use crate::redact::{sanitize, sanitized};
use crate::text::{eq_ignore_case, eq_ignore_case_str};

verus! {

broadcast use vstd::string::group_string_axioms;

/// Entry `e` answers to the handle `name`.
pub open spec fn answers_to(e: Entry, name: Seq<char>) -> bool {
    eq_ignore_case(e.name@, name)
}

/// The position of the first entry that answers to `name`.
pub open spec fn lookup(entries: Seq<Entry>, name: Seq<char>) -> Option<int>
    decreases entries.len(),
{
    if entries.len() == 0 {
        None
    } else if answers_to(entries[0], name) {
        Some(0)
    } else {
        match lookup(entries.drop_first(), name) {
            Some(i) => Some(i + 1),
            None => None,
        }
    }
}

pub proof fn lemma_lookup(entries: Seq<Entry>, name: Seq<char>, i: int)
    requires
        0 <= i <= entries.len(),
        forall|j: int| 0 <= j < i ==> !answers_to(#[trigger] entries[j], name),
        i < entries.len() ==> answers_to(entries[i], name),
    ensures
        lookup(entries, name) == (if i < entries.len() {
            Some(i)
        } else {
            None::<int>
        }),
    decreases i,
{
    if entries.len() > 0 && i > 0 {
        assert forall|j: int| 0 <= j < i - 1 implies !answers_to(#[trigger] entries.drop_first()[j], name) by {
            assert(entries.drop_first()[j] == entries[j + 1]);
        }
        lemma_lookup(entries.drop_first(), name, i - 1);
    }
}

pub proof fn lemma_lookup_found(entries: Seq<Entry>, name: Seq<char>)
    ensures
        lookup(entries, name) matches Some(i) ==> 0 <= i < entries.len() && answers_to(
            entries[i],
            name,
        ),
        lookup(entries, name) is None ==> forall|j: int|
            0 <= j < entries.len() ==> !answers_to(#[trigger] entries[j], name),
        lookup(entries, name) matches Some(i) ==> forall|j: int|
            0 <= j < i ==> !answers_to(#[trigger] entries[j], name),
    decreases entries.len(),
{
    if entries.len() > 0 {
        lemma_lookup_found(entries.drop_first(), name);
        if let Some(i) = lookup(entries, name) {
            assert forall|j: int| 0 <= j < i implies !answers_to(#[trigger] entries[j], name) by {
                if j > 0 {
                    assert(entries[j] == entries.drop_first()[j - 1]);
                }
            }
        }
        if !answers_to(entries[0], name) && lookup(entries, name) is None {
            assert forall|j: int| 0 <= j < entries.len() implies !answers_to(#[trigger] entries[j], name) by {
                if j > 0 {
                    assert(entries[j] == entries.drop_first()[j - 1]);
                }
            }
        }
    }
}

/// The error for a handle that no entry answers to.
pub open spec fn is_not_found(e: JingleError, name: Seq<char>) -> bool {
    e matches JingleError::NotFound(m) && m@ == sanitized(name, false)
}

/// `r` failed with the not-found error for `name`.
pub open spec fn not_found<T>(r: Result<T>, name: Seq<char>) -> bool {
    r matches Err(e) && is_not_found(e, name)
}

impl VaultPayload {
    /// The index of the entry that answers to `name`, if any.
    pub fn find_index(&self, name: &str) -> (r: Option<usize>)
        ensures
            match r {
                Some(i) => lookup(self.entries@, name@) == Some(i as int),
                None => lookup(self.entries@, name@) is None,
            },
            r matches Some(i) ==> i < self.entries@.len(),
    {
        let mut i: usize = 0;
        while i < self.entries.len()
            invariant
                i <= self.entries@.len(),
                forall|j: int| 0 <= j < i ==> !answers_to(#[trigger] self.entries@[j], name@),
            decreases self.entries.len() - i,
        {
            if eq_ignore_case_str(self.entries[i].name.as_str(), name) {
                proof {
                    lemma_lookup(self.entries@, name@, i as int);
                }
                return Some(i);
            }
            i = i + 1;
        }
        proof {
            lemma_lookup(self.entries@, name@, i as int);
        }
        None
    }

    /// Whether some entry answers to `name`.
    pub fn contains(&self, name: &str) -> (r: bool)
        ensures
            r == lookup(self.entries@, name@) is Some,
    {
        self.find_index(name).is_some()
    }

    /// The entry that answers to `name`, or `NotFound` with the sanitized name.
    pub fn find(&self, name: &str) -> (r: Result<&Entry>)
        ensures
            match lookup(self.entries@, name@) {
                Some(i) => r matches Ok(e) && *e == self.entries@[i],
                None => r matches Err(e) && is_not_found(e, name@),
            },
    {
        match self.find_index(name) {
            Some(i) => Ok(&self.entries[i]),
            None => Err(JingleError::NotFound(sanitize(name))),
        }
    }

    /// Append `entry`, refusing a name another entry already answers to.
    pub fn add(&mut self, entry: Entry) -> (r: Result<()>)
        ensures
            lookup(old(self).entries@, entry.name@) is Some ==> {
                &&& r matches Err(JingleError::AlreadyExists(m)) && m@ == sanitized(entry.name@, false)
                &&& final(self).entries@ == old(self).entries@
            },
            lookup(old(self).entries@, entry.name@) is None ==> {
                &&& r is Ok
                &&& final(self).entries@ == old(self).entries@.push(entry)
            },
            final(self).schema == old(self).schema,
    {
        if self.contains(entry.name.as_str()) {
            return Err(JingleError::AlreadyExists(sanitize(entry.name.as_str())));
        }
        self.entries.push(entry);
        Ok(())
    }

    /// Take out the entry that answers to `name`.
    pub fn remove(&mut self, name: &str) -> (r: Result<Entry>)
        ensures
            match lookup(old(self).entries@, name@) {
                Some(i) => {
                    &&& r matches Ok(e) && e == old(self).entries@[i]
                    &&& final(self).entries@ == old(self).entries@.remove(i)
                },
                None => {
                    &&& r matches Err(e) && is_not_found(e, name@)
                    &&& final(self).entries@ == old(self).entries@
                },
            },
            final(self).schema == old(self).schema,
    {
        match self.find_index(name) {
            Some(i) => Ok(self.entries.remove(i)),
            None => Err(JingleError::NotFound(sanitize(name))),
        }
    }
}

} // verus!
