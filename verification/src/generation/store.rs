//! The history of committed generations and the two pointers into it:
//! `current`, the generation to build next, and `built`, the one that was
//! built last.

use vstd::prelude::*;
use crate::text::{spec_decimal, spec_is_blank, spec_trim, to_decimal};

verus! {

#[derive(Debug, PartialEq, Eq, Structural, Clone, Copy)]
pub enum StoreError {
    /// The offset or number does not fall into the history.
    RangeError,
    /// The history is empty.
    NoGenerations,
    /// No generation is current.
    NoCurrent,
}

/// The identifiers of the commits of a history, newest first.
pub open spec fn hashes(log: Seq<(String, String)>) -> Seq<Seq<char>> {
    log.map_values(|c: (String, String)| c.0@)
}

/// The messages of the commits of a history, newest first.
pub open spec fn messages(log: Seq<(String, String)>) -> Seq<Seq<char>> {
    log.map_values(|c: (String, String)| c.1@)
}

/// The commit to go back to: the one that stands `by` places after the
/// newest in the history. An offset outside the history is a range error.
pub fn rollback(by: isize, log: &Vec<(String, String)>) -> (target: Result<String, StoreError>)
    ensures
        match target {
            Ok(hash) => 0 <= by < log@.len() && hash@ == hashes(log@)[by as int],
            Err(e) => e == StoreError::RangeError && (by < 0 || by >= log@.len()),
        },
{
    if by < 0 {
        return Err(StoreError::RangeError);
    }
    let target_index: usize = by as usize;
    if target_index >= log.len() {
        return Err(StoreError::RangeError);
    }
    Ok(log[target_index].0.clone())
}

/// The newest commit of the history.
pub fn latest(log: &Vec<(String, String)>) -> (target: Result<String, StoreError>)
    ensures
        match target {
            Ok(hash) => log@.len() > 0 && hash@ == hashes(log@)[0],
            Err(e) => e == StoreError::NoGenerations && log@.len() == 0,
        },
{
    if log.len() == 0 {
        return Err(StoreError::NoGenerations);
    }
    Ok(log[0].0.clone())
}

/// The commit that is shown under the number: the newest has number 1.
pub fn get_hash_from_number(num: usize, commits: &Vec<(String, String)>) -> (target: Result<
    String,
    StoreError,
>)
    ensures
        match target {
            Ok(hash) => 1 <= num <= commits@.len() && hash@ == hashes(commits@)[num - 1],
            Err(e) => e == StoreError::RangeError && (num == 0 || num > commits@.len()),
        },
{
    if num == 0 || num > commits.len() {
        return Err(StoreError::RangeError);
    }
    Ok(commits[num - 1].0.clone())
}

/// The history as it is shown: for each commit, newest first, its number
/// in decimal digits (the newest has number 1), its message, whether it is
/// the current one and whether it is the built one.
pub fn list(commits: &Vec<(String, String)>, current_hash: &str, built_hash: &str) -> (gens: Vec<
    (String, String, bool, bool),
>)
    ensures
        gens@.len() == commits@.len(),
        forall|i: int|
            0 <= i < gens@.len() ==> {
                &&& (#[trigger] gens@[i]).0@ == spec_decimal((i + 1) as nat)
                &&& gens@[i].1@ == messages(commits@)[i]
                &&& gens@[i].2 == (hashes(commits@)[i] == current_hash@)
                &&& gens@[i].3 == (hashes(commits@)[i] == built_hash@)
            },
{
    let mut gens: Vec<(String, String, bool, bool)> = Vec::new();
    let mut i: usize = 0;
    while i < commits.len()
        invariant
            0 <= i <= commits.len(),
            gens@.len() == i,
            forall|j: int|
                0 <= j < i ==> {
                    &&& (#[trigger] gens@[j]).0@ == spec_decimal((j + 1) as nat)
                    &&& gens@[j].1@ == messages(commits@)[j]
                    &&& gens@[j].2 == (hashes(commits@)[j] == current_hash@)
                    &&& gens@[j].3 == (hashes(commits@)[j] == built_hash@)
                },
        decreases commits.len() - i,
    {
        let hash = commits[i].0.as_str();
        gens.push(
            (to_decimal(i + 1), commits[i].1.clone(), hash.eq(current_hash), hash.eq(built_hash)),
        );
        i += 1;
    }
    gens
}

/// The identifier that a pointer file holds: its text without the white
/// space around it.
pub fn parse_pointer(content: &str) -> (hash: String)
    ensures
        hash@ == spec_trim(content@),
{
    crate::text::trim(content)
}

/// Whether the report on the working tree shows no change: it is blank.
pub fn is_clean(status: &str) -> (clean: bool)
    ensures
        clean == spec_is_blank(status@),
{
    crate::text::is_blank(status)
}

/// The two pointers into the history. Each is absent until it was set.
#[derive(Debug)]
pub struct Pointers {
    pub current: Option<String>,
    pub built: Option<String>,
}

/// The identifier that a pointer holds.
pub open spec fn pointer_view(p: Option<String>) -> Option<Seq<char>> {
    match p {
        Some(s) => Some(s@),
        None => None,
    }
}

impl Pointers {
    /// Whether any generation was built.
    pub fn been_built(&self) -> (built: bool)
        ensures
            built == self.built.is_some(),
    {
        self.built.is_some()
    }

    /// Makes the commit the current one.
    pub fn set_current_hash(&mut self, hash: &str)
        ensures
            pointer_view(final(self).current) == Some(hash@),
            pointer_view(final(self).built) == pointer_view(old(self).built),
    {
        self.current = Some(hash.to_owned());
    }

    /// Makes the commit the built one.
    pub fn set_built_hash(&mut self, hash: &str)
        ensures
            pointer_view(final(self).built) == Some(hash@),
            pointer_view(final(self).current) == pointer_view(old(self).current),
    {
        self.built = Some(hash.to_owned());
    }

    /// Takes note of what a commit returned. An empty identifier says that
    /// there was nothing to commit: then no pointer moves. Any other becomes
    /// the current one. Returns whether `current` moved.
    pub fn commit(&mut self, hash: &str) -> (moved: bool)
        ensures
            moved == (hash@.len() != 0),
            pointer_view(final(self).built) == pointer_view(old(self).built),
            pointer_view(final(self).current) == if hash@.len() == 0 {
                pointer_view(old(self).current)
            } else {
                Some(hash@)
            },
    {
        if hash.is_empty() {
            false
        } else {
            self.set_current_hash(hash);
            true
        }
    }

    /// Takes note of a finished build: the current generation is now the
    /// built one. Without a current generation nothing changes and the
    /// error says so.
    pub fn build(&mut self) -> (done: Result<(), StoreError>)
        ensures
            pointer_view(final(self).current) == pointer_view(old(self).current),
            match done {
                Ok(_) => old(self).current.is_some() && pointer_view(final(self).built)
                    == pointer_view(old(self).current),
                Err(e) => e == StoreError::NoCurrent && old(self).current.is_none()
                    && pointer_view(final(self).built) == pointer_view(old(self).built),
            },
    {
        let hash = match &self.current {
            Some(hash) => hash.clone(),
            None => {
                return Err(StoreError::NoCurrent);
            },
        };
        self.built = Some(hash);
        Ok(())
    }
}

} // verus!
