use vstd::prelude::*;

use bytes::Bytes;

verus! {

/// The bytes that a `Bytes` buffer holds.
pub uninterp spec fn bytes_held(b: Bytes) -> Seq<u8>;

/// Declares `bytes::Bytes`, the buffer that holds a post's attachment, as an
/// opaque type: the library carries it and never looks inside.
#[verifier::external_type_specification]
#[verifier::external_body]
pub struct ExBytes(Bytes);

/// Relies on `bytes::Bytes::new`: it makes an empty buffer.
pub assume_specification[ Bytes::new ]() -> (r: Bytes)
    ensures
        bytes_held(r) == Seq::<u8>::empty(),
;

/// Relies on `std::time::SystemTime::now`, read as nanoseconds since the Unix
/// epoch (0 for a clock set before it). Nothing is promised of the value: the
/// wall clock may stand still or go back.
#[verifier::external_body]
fn clock_now() -> (r: u64) {
    match std::time::SystemTime::now().duration_since(std::time::UNIX_EPOCH) {
        Ok(d) => d.as_nanos() as u64,
        Err(_) => 0,
    }
}

/// A post: who wrote it, what it says, an opaque attachment, and when it was
/// created and last modified (nanoseconds since the Unix epoch).
pub struct Post {
    owner: String,
    text: String,
    attachment: Bytes,
    created: u64,
    modified: u64,
    deleted: bool,
    parent: u64,
}

impl Post {
    pub closed spec fn owner_view(&self) -> Seq<char> {
        self.owner@
    }

    pub closed spec fn text_view(&self) -> Seq<char> {
        self.text@
    }

    pub closed spec fn attachment_spec(&self) -> Bytes {
        self.attachment
    }

    pub closed spec fn created_at(&self) -> u64 {
        self.created
    }

    pub closed spec fn modified_at(&self) -> u64 {
        self.modified
    }

    pub closed spec fn is_deleted(&self) -> bool {
        self.deleted
    }

    /// The id of the thread the post belongs to.
    pub closed spec fn parent_id(&self) -> u64 {
        self.parent
    }

    /// A post is never modified before it was created.
    pub open spec fn wf(&self) -> bool {
        self.created_at() <= self.modified_at()
    }

    /// What a mutator leaves alone.
    pub open spec fn same_content(&self, other: &Post) -> bool {
        &&& self.owner_view() == other.owner_view()
        &&& self.text_view() == other.text_view()
        &&& self.attachment_spec() == other.attachment_spec()
        &&& self.created_at() == other.created_at()
        &&& self.is_deleted() == other.is_deleted()
        &&& self.parent_id() == other.parent_id()
    }

    /// A new post, stamped with time `now` as both creation and modification
    /// time.
    pub fn new_at(owner: String, text: String, attachment: Bytes, parent: u64, now: u64) -> (p:
        Post)
        ensures
            p.wf(),
            p.owner_view() == owner@,
            p.text_view() == text@,
            p.attachment_spec() == attachment,
            p.created_at() == now,
            p.modified_at() == now,
            !p.is_deleted(),
            p.parent_id() == parent,
    {
        Post { owner, text, attachment, created: now, modified: now, deleted: false, parent }
    }

    /// A new post, stamped with the current time as both creation and
    /// modification time, as `new_at` does with the clock's reading.
    pub fn new(owner: String, text: String, attachment: Bytes, parent: u64) -> (p: Post)
        ensures
            p.wf(),
            p.owner_view() == owner@,
            p.text_view() == text@,
            p.attachment_spec() == attachment,
            p.created_at() == p.modified_at(),
            !p.is_deleted(),
            p.parent_id() == parent,
    {
        let now = clock_now();
        Post::new_at(owner, text, attachment, parent, now)
    }

    pub fn get_owner(&self) -> (r: &String)
        ensures
            r@ == self.owner_view(),
    {
        &self.owner
    }

    pub fn get_text(&self) -> (r: &String)
        ensures
            r@ == self.text_view(),
    {
        &self.text
    }

    pub fn get_attachment(&self) -> (r: &Bytes)
        ensures
            *r == self.attachment_spec(),
    {
        &self.attachment
    }

    pub fn get_created(&self) -> (r: &u64)
        ensures
            *r == self.created_at(),
    {
        &self.created
    }

    pub fn get_modified(&self) -> (r: &u64)
        ensures
            *r == self.modified_at(),
    {
        &self.modified
    }

    pub fn get_deleted(&self) -> (r: bool)
        ensures
            r == self.is_deleted(),
    {
        self.deleted
    }

    pub fn get_parent(&self) -> (r: u64)
        ensures
            r == self.parent_id(),
    {
        self.parent
    }

    /// Records a modification at time `now`. The modification time never
    /// goes back, so a clock that does cannot make it precede the creation.
    pub fn touch(&mut self, now: u64)
        requires
            old(self).wf(),
        ensures
            final(self).wf(),
            final(self).same_content(old(self)),
            final(self).modified_at() == if now > old(self).modified_at() {
                now
            } else {
                old(self).modified_at()
            },
    {
        if now > self.modified {
            self.modified = now;
        }
    }

    /// Records a modification at the current time.
    pub fn modification(&mut self)
        requires
            old(self).wf(),
        ensures
            final(self).wf(),
            final(self).same_content(old(self)),
            final(self).modified_at() >= old(self).modified_at(),
    {
        let now = clock_now();
        self.touch(now);
    }

    pub fn modify_owner(&mut self, new_owner: String)
        requires
            old(self).wf(),
        ensures
            final(self).wf(),
            final(self).owner_view() == new_owner@,
            final(self).text_view() == old(self).text_view(),
            final(self).attachment_spec() == old(self).attachment_spec(),
            final(self).created_at() == old(self).created_at(),
            final(self).modified_at() >= old(self).modified_at(),
            final(self).is_deleted() == old(self).is_deleted(),
            final(self).parent_id() == old(self).parent_id(),
    {
        self.modification();
        self.owner = new_owner;
    }

    pub fn modify_text(&mut self, new_text: String)
        requires
            old(self).wf(),
        ensures
            final(self).wf(),
            final(self).text_view() == new_text@,
            final(self).owner_view() == old(self).owner_view(),
            final(self).attachment_spec() == old(self).attachment_spec(),
            final(self).created_at() == old(self).created_at(),
            final(self).modified_at() >= old(self).modified_at(),
            final(self).is_deleted() == old(self).is_deleted(),
            final(self).parent_id() == old(self).parent_id(),
    {
        self.modification();
        self.text = new_text;
    }

    /// Replaces the attachment with an empty one.
    pub fn remove_attachment(&mut self)
        requires
            old(self).wf(),
        ensures
            final(self).wf(),
            bytes_held(final(self).attachment_spec()) == Seq::<u8>::empty(),
            final(self).owner_view() == old(self).owner_view(),
            final(self).text_view() == old(self).text_view(),
            final(self).created_at() == old(self).created_at(),
            final(self).modified_at() >= old(self).modified_at(),
            final(self).is_deleted() == old(self).is_deleted(),
            final(self).parent_id() == old(self).parent_id(),
    {
        self.modification();
        self.attachment = Bytes::new();
    }

    /// Sets the soft-delete tombstone; the post stays where it is.
    pub fn delete(&mut self)
        requires
            old(self).wf(),
        ensures
            final(self).wf(),
            final(self).is_deleted(),
            final(self).owner_view() == old(self).owner_view(),
            final(self).text_view() == old(self).text_view(),
            final(self).attachment_spec() == old(self).attachment_spec(),
            final(self).created_at() == old(self).created_at(),
            final(self).modified_at() >= old(self).modified_at(),
            final(self).parent_id() == old(self).parent_id(),
    {
        self.modification();
        self.deleted = true;
    }

    /// Clears the soft-delete tombstone.
    pub fn undelete(&mut self)
        requires
            old(self).wf(),
        ensures
            final(self).wf(),
            !final(self).is_deleted(),
            final(self).owner_view() == old(self).owner_view(),
            final(self).text_view() == old(self).text_view(),
            final(self).attachment_spec() == old(self).attachment_spec(),
            final(self).created_at() == old(self).created_at(),
            final(self).modified_at() >= old(self).modified_at(),
            final(self).parent_id() == old(self).parent_id(),
    {
        self.modification();
        self.deleted = false;
    }
}

} // verus!
