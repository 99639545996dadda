use vstd::prelude::*;

use super::{DataModel, ModelV, clone_models, lemma_models_view, lemma_models_view_eq, models_view};

verus! {

/// The index of the first key from `i` on that equals `name`.
pub open spec fn first_key_from(keys: Seq<Seq<char>>, name: Seq<char>, i: int) -> Option<int>
    decreases keys.len() - i,
{
    if i < 0 || i >= keys.len() {
        None
    } else if keys[i] == name {
        Some(i)
    } else {
        first_key_from(keys, name, i + 1)
    }
}

/// The value named `name`: the one at the first key that equals it, where that
/// value is there.
pub open spec fn field_of(keys: Seq<Seq<char>>, vals: Seq<ModelV>, name: Seq<char>) -> Option<ModelV> {
    match first_key_from(keys, name, 0) {
        Some(i) => if i < vals.len() {
            Some(vals[i])
        } else {
            None
        },
        None => None,
    }
}

/// Named children in order: the names of all of them, and the children that
/// are there so far, the `i`th child under the `i`th name.
#[derive(Debug)]
pub struct ChildMap {
    pub(crate) keys: Vec<String>,
    pub(crate) vals: Vec<DataModel>,
}

impl ChildMap {
    pub open(crate) spec fn keys_view(&self) -> Seq<Seq<char>> {
        Seq::new(self.keys@.len(), |i: int| self.keys@[i]@)
    }

    pub open(crate) spec fn vals_view(&self) -> Seq<ModelV> {
        models_view(self.vals@)
    }
}

impl ChildMap {
    pub(crate) fn clone(&self) -> (r: ChildMap)
        ensures
            r.keys_view() == self.keys_view(),
            r.vals_view() == self.vals_view(),
            r.vals@.len() == self.vals@.len(),
            forall|i: int| 0 <= i < self.vals@.len() ==> #[trigger] r.vals@[i]@ == self.vals@[i]@,
        decreases self,
    {
        let keys = self.keys.clone();
        let vals = clone_models(&self.vals);
        let r = ChildMap { keys, vals };
        assert(r.keys_view() =~= self.keys_view());
        proof {
            lemma_models_view_eq(r.vals@, self.vals@);
        }
        r
    }
}

impl ChildMap {
    /// The children in order, each under its name; no name may come twice.
    pub fn from(kv: Vec<(&str, DataModel)>) -> (r: ChildMap)
        requires
            Seq::new(kv@.len(), |i: int| kv@[i].0@).no_duplicates(),
        ensures
            r.keys_view() == Seq::new(kv@.len(), |i: int| kv@[i].0@),
            r.vals_view() == Seq::new(kv@.len(), |i: int| kv@[i].1@),
    {
        let ghost kv0 = kv@;
        let mut kv = kv;
        let mut keys: Vec<String> = Vec::new();
        let mut vals: Vec<DataModel> = Vec::new();
        while kv.len() > 0
            invariant
                keys@.len() == vals@.len(),
                keys@.len() + kv@.len() == kv0.len(),
                kv@ == kv0.skip(keys@.len() as int),
                forall|i: int| 0 <= i < keys@.len() ==> #[trigger] keys@[i]@ == kv0[i].0@,
                forall|i: int| 0 <= i < vals@.len() ==> #[trigger] vals@[i]@ == kv0[i].1@,
            decreases kv@.len(),
        {
            let (k, v) = kv.remove(0);
            keys.push(k.to_owned());
            vals.push(v);
            assert(kv@ =~= kv0.skip(keys@.len() as int));
        }
        let r = ChildMap { keys, vals };
        assert(r.keys_view() =~= Seq::new(kv0.len(), |i: int| kv0[i].0@));
        proof {
            lemma_models_view(r.vals@);
        }
        assert(r.vals_view() =~= Seq::new(kv0.len(), |i: int| kv0[i].1@));
        r
    }

    /// The same names with no children yet.
    pub fn empty(&self) -> (r: ChildMap)
        ensures
            r.keys_view() == self.keys_view(),
            r.vals_view() == Seq::<ModelV>::empty(),
    {
        let r = ChildMap { keys: self.keys.clone(), vals: Vec::new() };
        assert(r.keys_view() =~= self.keys_view());
        assert(r.vals_view() =~= Seq::<ModelV>::empty());
        r
    }

    /// Adds the next child.
    pub fn push(&mut self, child: DataModel)
        ensures
            final(self).keys_view() == old(self).keys_view(),
            final(self).vals_view() == old(self).vals_view().push(child@),
    {
        self.vals.push(child);
        assert(self.vals_view() =~= old(self).vals_view().push(child@));
    }

    /// The children there are so far, in order.
    pub fn vals(&self) -> (r: &Vec<DataModel>)
        ensures
            models_view(r@) == self.vals_view(),
    {
        &self.vals
    }

    /// The names of the children.
    pub fn keys(&self) -> (r: &Vec<String>)
        ensures
            Seq::new(r@.len(), |i: int| r@[i]@) == self.keys_view(),
    {
        &self.keys
    }

    /// Puts `child` in place of the `i`th child.
    pub fn set_ind(&mut self, i: usize, child: DataModel)
        requires
            i < old(self).vals_view().len(),
        ensures
            final(self).keys_view() == old(self).keys_view(),
            final(self).vals_view() == old(self).vals_view().update(i as int, child@),
    {
        self.vals.set(i, child);
        assert(self.vals_view() =~= old(self).vals_view().update(i as int, child@));
    }

    /// Where the first name that equals `name` is.
    pub fn find(&self, name: &String) -> (r: Option<usize>)
        ensures
            match r {
                Some(i) => first_key_from(self.keys_view(), name@, 0) == Some(i as int),
                None => first_key_from(self.keys_view(), name@, 0) is None,
            },
    {
        let mut i: usize = 0;
        while i < self.keys.len()
            invariant
                i <= self.keys@.len(),
                first_key_from(self.keys_view(), name@, 0) == first_key_from(self.keys_view(), name@, i as int),
            decreases self.keys@.len() - i,
        {
            if self.keys[i] == *name {
                return Some(i);
            }
            i = i + 1;
        }
        None
    }

    /// The child under the name `name`, where it is there.
    pub fn get(&self, name: &String) -> (r: Option<&DataModel>)
        ensures
            match r {
                Some(m) => field_of(self.keys_view(), self.vals_view(), name@) == Some(m@),
                None => field_of(self.keys_view(), self.vals_view(), name@) is None,
            },
    {
        match self.find(name) {
            Some(i) => if i < self.vals.len() {
                Some(&self.vals[i])
            } else {
                None
            },
            None => None,
        }
    }
}

} // verus!
