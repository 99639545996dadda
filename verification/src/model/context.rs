use vstd::prelude::*;

use super::bolts::ChildMap;
use super::predicate::{Step, frame_at, step_frame};
use super::{DataModel, ModelV, clone_models, lemma_models_view, lemma_models_view_eq, models_view};

verus! {

/// What one level of a context holds.
#[derive(Debug)]
pub enum Children {
    Zilch,
    Child(DataModel),
    ChildList(Vec<DataModel>),
    ChildMap(ChildMap),
}

/// The mathematical value of one level of a context.
pub enum FrameV {
    Zilch,
    Child(ModelV),
    ChildList(Seq<ModelV>),
    ChildMap(Seq<Seq<char>>, Seq<ModelV>),
}

impl View for Children {
    type V = FrameV;

    open spec fn view(&self) -> FrameV {
        match self {
            Children::Zilch => FrameV::Zilch,
            Children::Child(m) => FrameV::Child(m@),
            Children::ChildList(v) => FrameV::ChildList(models_view(v@)),
            Children::ChildMap(m) => FrameV::ChildMap(m.keys_view(), m.vals_view()),
        }
    }
}

/// What a grammar node sees while it parses: the levels of the tree above it,
/// the innermost last, each with the nodes parsed so far at that level.
#[derive(Debug)]
pub struct Context {
    pub(crate) frames: Vec<Children>,
}

impl Context {
    pub open(crate) spec fn view(&self) -> Seq<FrameV> {
        Seq::new(self.frames@.len(), |i: int| self.frames@[i]@)
    }
}

impl Children {
    pub fn clone(&self) -> (r: Children)
        ensures
            r@ == self@,
    {
        match self {
            Children::Zilch => Children::Zilch,
            Children::Child(m) => Children::Child(m.clone()),
            Children::ChildList(v) => {
                let r = clone_models(v);
                proof {
                    lemma_models_view_eq(r@, v@);
                }
                Children::ChildList(r)
            },
            Children::ChildMap(m) => Children::ChildMap(m.clone()),
        }
    }

    /// Where a step leads from this level.
    pub fn step<'a>(&'a self, s: &Step) -> (r: Option<&'a DataModel>)
        ensures
            match r {
                Some(m) => step_frame(self@, s@) == Some(m@),
                None => step_frame(self@, s@) is None,
            },
    {
        match s {
            Step::Child => match self {
                Children::Child(m) => Some(m),
                _ => None,
            },
            Step::Field(n) => match self {
                Children::ChildMap(m) => m.get(n),
                _ => None,
            },
            Step::Last => match self {
                Children::ChildList(v) => if v.len() > 0 {
                    Some(&v[v.len() - 1])
                } else {
                    None
                },
                _ => None,
            },
        }
    }
}

impl Context {
    /// A context one level further in than `parent` (or at the root), the new
    /// level holding `children`.
    pub fn new(parent: Option<Context>, children: Children) -> (r: Context)
        ensures
            r@ == match parent {
                Some(p) => p@,
                None => Seq::<FrameV>::empty(),
            }.push(children@),
    {
        let ghost want = if parent is Some {
            parent->0@
        } else {
            Seq::<FrameV>::empty()
        }.push(children@);
        let mut frames = match parent {
            Some(p) => p.frames,
            None => Vec::new(),
        };
        frames.push(children);
        let r = Context { frames };
        assert(r@ =~= want);
        r
    }

    /// A copy of the context and of all it holds.
    pub fn clone(&self) -> (r: Context)
        ensures
            r@ == self@,
    {
        let mut frames: Vec<Children> = Vec::new();
        let mut i: usize = 0;
        while i < self.frames.len()
            invariant
                i <= self.frames@.len(),
                frames@.len() == i,
                forall|j: int| 0 <= j < i ==> #[trigger] frames@[j]@ == self.frames@[j]@,
            decreases self.frames@.len() - i,
        {
            frames.push(self.frames[i].clone());
            i = i + 1;
        }
        let r = Context { frames };
        assert(r@ =~= self@);
        r
    }

    /// The context one level further out.
    pub fn parent(&self) -> (r: Context)
        requires
            self@.len() >= 2,
        ensures
            r@ == self@.drop_last(),
    {
        let mut frames: Vec<Children> = Vec::new();
        let mut i: usize = 0;
        while i < self.frames.len() - 1
            invariant
                i + 1 <= self.frames@.len(),
                frames@.len() == i,
                forall|j: int| 0 <= j < i ==> #[trigger] frames@[j]@ == self.frames@[j]@,
            decreases self.frames@.len() - i,
        {
            frames.push(self.frames[i].clone());
            i = i + 1;
        }
        let r = Context { frames };
        assert(r@ =~= self@.drop_last());
        r
    }

    /// The single child at the innermost level.
    pub fn child(&self) -> (r: &DataModel)
        requires
            self@.len() > 0,
            self@.last() is Child,
        ensures
            self@.last() == FrameV::Child(r@),
    {
        match &self.frames[self.frames.len() - 1] {
            Children::Child(m) => m,
            _ => unreached(),
        }
    }

    /// The children so far at the innermost level.
    pub fn vec(&self) -> (r: &Vec<DataModel>)
        requires
            self@.len() > 0,
            self@.last() is ChildList,
        ensures
            self@.last() == FrameV::ChildList(models_view(r@)),
    {
        match &self.frames[self.frames.len() - 1] {
            Children::ChildList(v) => v,
            _ => unreached(),
        }
    }

    /// The named children at the innermost level.
    pub fn map(&self) -> (r: &ChildMap)
        requires
            self@.len() > 0,
            self@.last() is ChildMap,
        ensures
            self@.last() == FrameV::ChildMap(r.keys_view(), r.vals_view()),
    {
        match &self.frames[self.frames.len() - 1] {
            Children::ChildMap(m) => m,
            _ => unreached(),
        }
    }

    /// The level `up` levels out from the innermost one.
    pub fn frame(&self, up: usize) -> (r: Option<&Children>)
        ensures
            match r {
                Some(f) => frame_at(self@, up as nat) == Some(f@),
                None => frame_at(self@, up as nat) is None,
            },
    {
        if up < self.frames.len() {
            Some(&self.frames[self.frames.len() - 1 - up])
        } else {
            None
        }
    }

    pub(crate) fn push(&mut self, children: Children)
        ensures
            final(self)@ == old(self)@.push(children@),
    {
        self.frames.push(children);
        assert(self@ =~= old(self)@.push(children@));
    }

    pub(crate) fn pop(&mut self) -> (r: Children)
        requires
            old(self)@.len() > 0,
        ensures
            r@ == old(self)@.last(),
            final(self)@ == old(self)@.drop_last(),
    {
        let r = self.frames.pop().unwrap();
        assert(self@ =~= old(self)@.drop_last());
        r
    }
}

} // verus!
