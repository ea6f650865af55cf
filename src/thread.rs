use vstd::prelude::*;

verus! {

/// A thread: a name and the ids of its posts, the first of which is the
/// root post whose id is the thread's own.
pub struct Thread {
    name: String,
    children: Vec<u64>,
    locked: bool,
    deleted: bool,
}

impl Thread {
    pub closed spec fn name_view(&self) -> Seq<char> {
        self.name@
    }

    /// The thread's post ids, root post first.
    pub closed spec fn children_view(&self) -> Seq<u64> {
        self.children@
    }

    pub closed spec fn is_locked(&self) -> bool {
        self.locked
    }

    pub closed spec fn is_deleted(&self) -> bool {
        self.deleted
    }

    /// A thread always holds its root post.
    pub open spec fn wf(&self) -> bool {
        self.children_view().len() > 0
    }

    /// The thread's identity: the id of its root post.
    pub open spec fn parent(&self) -> u64 {
        self.children_view()[0]
    }

    pub fn new(name: String, parent: u64) -> (t: Thread)
        ensures
            t.wf(),
            t.name_view() == name@,
            t.children_view() == seq![parent],
            !t.is_locked(),
            !t.is_deleted(),
    {
        Thread { name, children: vec![parent], locked: false, deleted: false }
    }

    pub fn get_name(&self) -> (r: &String)
        ensures
            r@ == self.name_view(),
    {
        &self.name
    }

    pub fn get_parent(&self) -> (r: u64)
        requires
            self.wf(),
        ensures
            r == self.parent(),
    {
        self.children[0]
    }

    pub fn get_children(&self) -> (r: &Vec<u64>)
        ensures
            r@ == self.children_view(),
    {
        &self.children
    }

    pub fn get_locked(&self) -> (r: bool)
        ensures
            r == self.is_locked(),
    {
        self.locked
    }

    pub fn get_deleted(&self) -> (r: bool)
        ensures
            r == self.is_deleted(),
    {
        self.deleted
    }

    pub fn modify_name(&mut self, new_name: String)
        ensures
            final(self).name_view() == new_name@,
            final(self).children_view() == old(self).children_view(),
            final(self).is_locked() == old(self).is_locked(),
            final(self).is_deleted() == old(self).is_deleted(),
    {
        self.name = new_name;
    }

    /// Appends a reply's post id.
    pub fn add_child(&mut self, child: u64)
        ensures
            final(self).children_view() == old(self).children_view().push(child),
            final(self).name_view() == old(self).name_view(),
            final(self).is_locked() == old(self).is_locked(),
            final(self).is_deleted() == old(self).is_deleted(),
    {
        self.children.push(child);
    }

    pub fn lock(&mut self)
        ensures
            final(self).is_locked(),
            final(self).name_view() == old(self).name_view(),
            final(self).children_view() == old(self).children_view(),
            final(self).is_deleted() == old(self).is_deleted(),
    {
        self.locked = true;
    }

    pub fn unlock(&mut self)
        ensures
            !final(self).is_locked(),
            final(self).name_view() == old(self).name_view(),
            final(self).children_view() == old(self).children_view(),
            final(self).is_deleted() == old(self).is_deleted(),
    {
        self.locked = false;
    }

    pub fn delete(&mut self)
        ensures
            final(self).is_deleted(),
            final(self).name_view() == old(self).name_view(),
            final(self).children_view() == old(self).children_view(),
            final(self).is_locked() == old(self).is_locked(),
    {
        self.deleted = true;
    }

    pub fn undelete(&mut self)
        ensures
            !final(self).is_deleted(),
            final(self).name_view() == old(self).name_view(),
            final(self).children_view() == old(self).children_view(),
            final(self).is_locked() == old(self).is_locked(),
    {
        self.deleted = false;
    }
}

} // verus!
