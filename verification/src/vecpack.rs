//! A vector of packs: members kept each in a pack file of its own in one
//! directory, named by the member's id.

use vstd::prelude::*;
use crate::error::{PackError, PackResult};
use crate::pack::{Pack, PackView};

verus! {

/// `i` is the position of the first member whose id is `id`.
pub open spec fn is_first_with_id(members: Seq<PackView>, id: Seq<char>, i: int) -> bool {
    &&& 0 <= i < members.len()
    &&& members[i].name == id
    &&& forall|j: int| 0 <= j < i ==> #[trigger] members[j].name != id
}

/// Some member has the id `id`.
pub open spec fn has_id(members: Seq<PackView>, id: Seq<char>) -> bool {
    exists|i: int| 0 <= i < members.len() && #[trigger] members[i].name == id
}

/// The position of the first member whose id is `id`.
pub open spec fn first_with_id(members: Seq<PackView>, id: Seq<char>) -> int {
    choose|i: int| is_first_with_id(members, id, i)
}

/// Where no member before `i` has the id and some member has it, there is
/// a first one.
proof fn lemma_first_from(members: Seq<PackView>, id: Seq<char>, i: int)
    requires
        0 <= i <= members.len(),
        forall|j: int| 0 <= j < i ==> #[trigger] members[j].name != id,
        has_id(members, id),
    ensures
        exists|f: int| is_first_with_id(members, id, f),
    decreases members.len() - i,
{
    if i < members.len() {
        if members[i].name == id {
            assert(is_first_with_id(members, id, i));
        } else {
            lemma_first_from(members, id, i + 1);
        }
    }
}

/// Where some member has the id, the first such one is found.
pub proof fn lemma_first_with_id(members: Seq<PackView>, id: Seq<char>)
    requires
        has_id(members, id),
    ensures
        is_first_with_id(members, id, first_with_id(members, id)),
{
    lemma_first_from(members, id, 0);
}

/// A vector of packs.
pub struct VecPackView {
    pub dir: Seq<char>,
    pub members: Seq<PackView>,
}

/// A vector of packs in one directory.
pub struct VecPack {
    dir: String,
    items: Vec<Pack>,
}

impl View for VecPack {
    type V = VecPackView;

    closed spec fn view(&self) -> VecPackView {
        VecPackView { dir: self.dir@, members: self.items@.map_values(|p: Pack| p@) }
    }
}

impl VecPack {
    /// The members as they are held.
    pub closed spec fn packs(&self) -> Seq<Pack> {
        self.items@
    }

    /// The members, as held, are those of the view.
    pub proof fn lemma_packs_view(&self)
        ensures
            self.packs().len() == self@.members.len(),
            forall|i: int| 0 <= i < self.packs().len() ==> #[trigger] self.packs()[i]@ == self@.members[i],
    {
    }

    /// Loads the vector in `dir` from the bytes of its members' files,
    /// each with its id; the members come in the order given.
    pub fn load_or_init(dir: &str, stored: &Vec<(String, Vec<u8>)>) -> (r: PackResult<VecPack>)
        ensures
            r matches Ok(v) ==> v@.dir == dir@ && v@.members.len() == stored@.len()
                && forall|i: int| 0 <= i < stored@.len() ==> {
                    &&& #[trigger] v@.members[i].name == stored@[i].0@
                    &&& v@.members[i].dir == dir@
                    &&& crate::pack::load_stored(stored@[i].1@) == Ok::<_, PackError>((v@.members[i].file, v@.members[i].data))
                },
            r matches Err(e) ==> exists|i: int| {
                &&& 0 <= i < stored@.len()
                &&& #[trigger] crate::pack::load_stored(stored@[i].1@) == Err::<(crate::packfile::PackFileView, Seq<u8>), PackError>(e)
                &&& forall|j: int| 0 <= j < i ==> #[trigger] crate::pack::load_stored(stored@[j].1@) is Ok
            },
    {
        let mut items: Vec<Pack> = Vec::new();
        let ghost all = stored@;
        let mut k: usize = 0;
        let n = stored.len();
        while k < n
            invariant
                n == all.len(),
                k <= n,
                stored@ == all,
                items@.len() == k,
                forall|i: int| 0 <= i < k ==> {
                    &&& #[trigger] items@[i]@.name == all[i].0@
                    &&& items@[i]@.dir == dir@
                    &&& crate::pack::load_stored(all[i].1@) == Ok::<_, PackError>((items@[i]@.file, items@[i]@.data))
                },
            decreases n - k,
        {
            let entry = &stored[k];
            let image = vstd::slice::slice_to_vec(entry.1.as_slice());
            let pack = match Pack::load_image(dir, entry.0.as_str(), image) {
                Ok(p) => p,
                Err(e) => {
                    assert(crate::pack::load_stored(all[k as int].1@) == Err::<(crate::packfile::PackFileView, Seq<u8>), PackError>(e));
                    assert forall|j: int| 0 <= j < k implies #[trigger] crate::pack::load_stored(all[j].1@) is Ok by {
                        assert(items@[j]@.name == all[j].0@);
                    }
                    return Err(e);
                },
            };
            items.push(pack);
            k = k + 1;
        }
        let r = VecPack { dir: dir.to_string(), items };
        assert forall|i: int| 0 <= i < all.len() implies #[trigger] r@.members[i].name == all[i].0@ by {}
        Ok(r)
    }

    /// The number of members.
    pub fn len(&self) -> (r: usize)
        ensures
            r == self@.members.len(),
    {
        self.items.len()
    }

    /// The member at `index`, if any.
    pub fn get(&self, index: usize) -> (r: Option<&Pack>)
        ensures
            match r {
                Some(p) => index < self@.members.len() && p@ == self@.members[index as int],
                None => index >= self@.members.len(),
            },
    {
        if index < self.items.len() {
            Some(&self.items[index])
        } else {
            None
        }
    }

    /// The last member, if any.
    pub fn last(&self) -> (r: Option<&Pack>)
        ensures
            match r {
                Some(p) => self@.members.len() > 0 && p@ == self@.members.last(),
                None => self@.members.len() == 0,
            },
    {
        let n = self.items.len();
        if n > 0 {
            Some(&self.items[n - 1])
        } else {
            None
        }
    }

    /// Adds a member with id `id` and value `data`, in a new pack file.
    pub fn insert(&mut self, id: &str, data: Vec<u8>) -> (r: PackResult<()>)
        ensures
            final(self)@.dir == old(self)@.dir,
            exists|date: u64| call_ensures(crate::layout::now, (), date) && match #[trigger] crate::packfile::init_image(0, None, None, None, data@, date) {
                Ok(_) => r is Ok && final(self)@.members.len() == old(self)@.members.len() + 1
                    && final(self)@.members.drop_last() == old(self)@.members
                    && final(self)@.members.last().name == id@
                    && final(self)@.members.last().dir == old(self)@.dir
                    && final(self)@.members.last().data == data@
                    && final(self)@.members.last().in_sync(),
                Err(e) => r == Err::<(), PackError>(e) && final(self)@ == old(self)@,
            },
    {
        let pack = match Pack::load_or_init(self.dir.as_str(), id, None, data) {
            Ok(p) => p,
            Err(e) => return Err(e),
        };
        self.items.push(pack);
        assert(self@.members.drop_last() =~= old(self)@.members);
        Ok(())
    }

    /// The first member whose id is `id`.
    pub fn find_id(&self, id: &str) -> (r: PackResult<&Pack>)
        ensures
            match r {
                Ok(p) => has_id(self@.members, id@) && p@ == self@.members[first_with_id(self@.members, id@)],
                Err(e) => !has_id(self@.members, id@) && e == PackError::ObjectNotFound,
            },
    {
        proof {
            self.lemma_packs_view();
        }
        match self.find_index(id) {
            Some(i) => Ok(&self.items[i]),
            None => Err(PackError::ObjectNotFound),
        }
    }

    /// The first member whose id is `id`, to change.
    pub fn find_id_mut(&mut self, id: &str) -> (r: PackResult<&mut Pack>)
        ensures
            match r {
                Ok(p) => {
                    let i = first_with_id(old(self)@.members, id@);
                    &&& has_id(old(self)@.members, id@)
                    &&& *p == old(self).packs()[i]
                    &&& final(self).packs() == old(self).packs().update(i, *final(p))
                    &&& final(self)@.dir == old(self)@.dir
                },
                Err(e) => !has_id(old(self)@.members, id@) && e == PackError::ObjectNotFound
                    && *final(self) == *old(self),
            },
    {
        proof {
            self.lemma_packs_view();
        }
        match self.find_index(id) {
            Some(i) => Ok(&mut self.items[i]),
            None => Err(PackError::ObjectNotFound),
        }
    }

    /// The member at `index`, to change.
    pub fn get_mut(&mut self, index: usize) -> (r: Option<&mut Pack>)
        ensures
            match r {
                Some(p) => {
                    &&& index < old(self)@.members.len()
                    &&& *p == old(self).packs()[index as int]
                    &&& final(self).packs() == old(self).packs().update(index as int, *final(p))
                    &&& final(self)@.dir == old(self)@.dir
                },
                None => index >= old(self)@.members.len() && *final(self) == *old(self),
            },
    {
        if index < self.items.len() {
            Some(&mut self.items[index])
        } else {
            None
        }
    }

    /// The position of the first member whose id is `id`.
    fn find_index(&self, id: &str) -> (r: Option<usize>)
        ensures
            match r {
                Some(i) => has_id(self@.members, id@) && i == first_with_id(self@.members, id@)
                    && is_first_with_id(self@.members, id@, i as int) && i < self.packs().len(),
                None => !has_id(self@.members, id@),
            },
    {
        let key = id.to_string();
        let n = self.items.len();
        let mut i: usize = 0;
        while i < n
            invariant
                n == self@.members.len(),
                n == self.items@.len(),
                key@ == id@,
                i <= n,
                forall|j: int| 0 <= j < i ==> #[trigger] self@.members[j].name != id@,
            decreases n - i,
        {
            if self.items[i].name().eq(&key) {
                proof {
                    assert(is_first_with_id(self@.members, id@, i as int));
                    lemma_first_with_id(self@.members, id@);
                    let f = first_with_id(self@.members, id@);
                    assert(f == i) by {
                        if f < i {
                            assert(self@.members[f].name != id@);
                        }
                        if f > i {
                            assert(self@.members[i as int].name != id@);
                        }
                    }
                }
                return Some(i);
            }
            i = i + 1;
        }
        None
    }
}

} // verus!
