//! The in-memory store partition: the verified reference implementation
//! of the storage interface, and the id generator behind it.

use vstd::prelude::*;

use crate::comm::{
    has_id, has_name, index_of_id, index_of_name, lemma_index_of_id, lemma_index_of_name,
    Database,
};
use crate::db::{DatabaseItem, Id, ItemView};
use crate::errors::DbError;

verus! {

/// Relies on uuid's `Uuid::new_v4`, rendered through its hyphenated
/// `Display` form: a random version-4 UUID as 36 characters. The value is
/// random, so nothing is assumed beyond the length.
#[verifier::external_body]
fn new_random_id() -> (r: String)
    ensures
        r@.len() == 36,
{
    uuid::Uuid::new_v4().to_string()
}

/// An in-memory partition: the reference implementation of [`Database`].
/// Records live in a vector in insertion order, which is also the scan
/// order that `list` and the name lookup observe.
pub struct MemDatabase<DI: DatabaseItem> where DI::V: ItemView {
    entries: Vec<(Id, DI)>,
}

impl<DI: DatabaseItem> MemDatabase<DI> where DI::V: ItemView {
    /// An empty partition.
    pub fn new() -> (r: Self)
        ensures
            r.contents() == Seq::<(Seq<char>, DI::V)>::empty(),
    {
        let r = MemDatabase { entries: Vec::new() };
        proof {
            assert(r.contents() =~= Seq::<(Seq<char>, DI::V)>::empty());
        }
        r
    }

    /// Inserts a record under a caller-chosen id; an id already in use is
    /// refused and nothing changes.
    pub fn add_with_id(&mut self, id: Id, item: DI) -> (r: Result<(), DbError>)
        ensures
            !has_id(old(self).contents(), id@) ==> r is Ok
                && final(self).contents() == old(self).contents().push((id@, item@)),
            has_id(old(self).contents(), id@) ==> (r matches Err(e)
                && e matches DbError::AccessFailed(_))
                && final(self).contents() == old(self).contents(),
    {
        let n = self.entries.len();
        let mut i: usize = 0;
        while i < n
            invariant
                self.contents() == old(self).contents(),
                n == self.entries@.len(),
                i <= n,
                forall|j: int| 0 <= j < i ==> (#[trigger] self.contents()[j]).0 != id@,
            decreases n - i,
        {
            if self.entries[i].0 == id {
                proof {
                    assert(self.contents()[i as int].0 == id@);
                    assert(has_id(self.contents(), id@));
                }
                return Err(DbError::AccessFailed(String::from_str("id already in use")));
            }
            i = i + 1;
        }
        assert(!has_id(self.contents(), id@));
        let ghost pre = self.contents();
        self.entries.push((id, item));
        proof {
            assert(self.contents() =~= pre.push((id@, item@)));
        }
        Ok(())
    }

    /// The raw records with their ids, in scan order.
    pub fn records(&self) -> (r: &Vec<(Id, DI)>)
        ensures
            r@.len() == self.contents().len(),
            forall|i: int| 0 <= i < r@.len()
                ==> self.contents()[i] == ((#[trigger] r@[i]).0@, r@[i].1@),
    {
        &self.entries
    }
}

impl<DI: DatabaseItem> Database<DI> for MemDatabase<DI> where DI::V: ItemView {
    closed spec fn contents(&self) -> Seq<(Seq<char>, DI::V)> {
        self.entries@.map_values(|p: (Id, DI)| (p.0@, p.1@))
    }

    fn init(&mut self) -> (r: Result<(), DbError>)
        ensures
            r is Ok,
    {
        Ok(())
    }

    fn get_id(&self, name: &str) -> (r: Result<Id, DbError>)
        ensures
            r is Ok <==> has_name(self.contents(), name@),
    {
        let target: String = name.to_owned();
        let n = self.entries.len();
        let mut i: usize = 0;
        while i < n
            invariant
                target@ == name@,
                n == self.entries@.len(),
                i <= n,
                forall|j: int| 0 <= j < i
                    ==> (#[trigger] self.contents()[j]).1.name_of() != name@,
            decreases n - i,
        {
            if self.entries[i].1.get_name() == target {
                proof {
                    let s = self.contents();
                    assert(s[i as int].1.name_of() == name@);
                    assert(has_name(s, name@));
                    lemma_index_of_name(s, name@);
                    let k = index_of_name(s, name@);
                    assert(s[k].1.name_of() == name@);
                    assert(k >= i);
                    assert(k == i);
                }
                return Ok(self.entries[i].0.clone());
            }
            i = i + 1;
        }
        assert(!has_name(self.contents(), name@));
        Err(DbError::NotExists(DI::get_bucket()))
    }

    fn get(&self, id: &str) -> (r: Result<DI, DbError>)
        ensures
            r is Ok <==> has_id(self.contents(), id@),
    {
        let target: String = id.to_owned();
        let n = self.entries.len();
        let mut i: usize = 0;
        while i < n
            invariant
                target@ == id@,
                n == self.entries@.len(),
                i <= n,
                forall|j: int| 0 <= j < i ==> (#[trigger] self.contents()[j]).0 != id@,
            decreases n - i,
        {
            if self.entries[i].0 == target {
                proof {
                    let s = self.contents();
                    assert(s[i as int].0 == id@);
                    assert(has_id(s, id@));
                    lemma_index_of_id(s, id@);
                    let k = index_of_id(s, id@);
                    assert(s[k].0 == id@);
                    assert(k == i);
                }
                return Ok(self.entries[i].1.dup());
            }
            i = i + 1;
        }
        assert(!has_id(self.contents(), id@));
        Err(DbError::NotExists(DI::get_bucket()))
    }

    fn list(&self) -> (r: Result<Vec<DI>, DbError>)
        ensures
            r is Ok,
    {
        let n = self.entries.len();
        let mut items: Vec<DI> = Vec::new();
        let mut i: usize = 0;
        while i < n
            invariant
                n == self.entries@.len(),
                i <= n,
                items@.len() == i,
                forall|j: int| 0 <= j < i
                    ==> (#[trigger] items@[j])@ == self.contents()[j].1,
            decreases n - i,
        {
            items.push(self.entries[i].1.dup());
            i = i + 1;
        }
        Ok(items)
    }

    fn add(&mut self, item: DI) -> (r: Result<(), DbError>)
        ensures
            old(self).contents().len() == 0 ==> r is Ok,
    {
        let id = new_random_id();
        let res = self.add_with_id(id, item);
        match res {
            Ok(()) => Ok(()),
            Err(e) => Err(e),
        }
    }

    fn update(&mut self, ori_id: &str, new_item: DI) -> (r: Result<(), DbError>)
        ensures
            r is Ok,
    {
        let target: String = ori_id.to_owned();
        let n = self.entries.len();
        let mut i: usize = 0;
        while i < n
            invariant
                self.contents() == old(self).contents(),
                target@ == ori_id@,
                n == self.entries@.len(),
                i <= n,
                forall|j: int| 0 <= j < i ==> (#[trigger] self.contents()[j]).0 != ori_id@,
            decreases n - i,
        {
            if self.entries[i].0 == target {
                proof {
                    let s = self.contents();
                    assert(s[i as int].0 == ori_id@);
                    assert(has_id(s, ori_id@));
                    lemma_index_of_id(s, ori_id@);
                    assert(index_of_id(s, ori_id@) == i);
                }
                let ghost pre = self.contents();
                let stored_id = self.entries[i].0.clone();
                self.entries[i] = (stored_id, new_item);
                proof {
                    assert(self.contents() =~= pre.update(i as int, (ori_id@, new_item@)));
                }
                return Ok(());
            }
            i = i + 1;
        }
        assert(!has_id(self.contents(), ori_id@));
        let ghost pre = self.contents();
        self.entries.push((target, new_item));
        proof {
            assert(self.contents() =~= pre.push((ori_id@, new_item@)));
        }
        Ok(())
    }

    fn delete(&mut self, id: &str) -> (r: Result<(), DbError>) {
        let target: String = id.to_owned();
        let n = self.entries.len();
        let mut i: usize = 0;
        while i < n
            invariant
                self.contents() == old(self).contents(),
                target@ == id@,
                n == self.entries@.len(),
                i <= n,
                forall|j: int| 0 <= j < i ==> (#[trigger] self.contents()[j]).0 != id@,
            decreases n - i,
        {
            if self.entries[i].0 == target {
                proof {
                    let s = self.contents();
                    assert(s[i as int].0 == id@);
                    assert(has_id(s, id@));
                    lemma_index_of_id(s, id@);
                    assert(index_of_id(s, id@) == i);
                }
                let ghost pre = self.contents();
                let _ = self.entries.remove(i);
                proof {
                    assert(self.contents() =~= pre.remove(i as int));
                }
                return Ok(());
            }
            i = i + 1;
        }
        assert(!has_id(self.contents(), id@));
        Err(DbError::NotExists(DI::get_bucket()))
    }

    fn check(&self) -> (r: Result<(), DbError>)
        ensures
            r is Ok,
    {
        Ok(())
    }
}

} // verus!
