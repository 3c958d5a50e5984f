//! The explicit graphics-context token.
//!
//! Stateful GPU drivers keep process-wide current-context state: which
//! handles are allocated, which buffer is bound to each target, which vertex
//! array and program are current.  This module models that state as an
//! explicit value passed through the API, with a single documented writer:
//! every resource operation takes the one [`Context`] by mutable reference.
//!
//! A handle is a non-zero 32-bit name; 0 means "no object".  The context
//! allocates distinct handles, tracks which are live, and is the single
//! release point: a handle becomes dead exactly once, when the wrapper that
//! owns it is destroyed.

use vstd::prelude::*;

verus! {

/// The modeled state of one graphics context.
pub struct Context {
    next_handle: u32,
    live: Vec<u32>,
    active_program: u32,
    bound_vertex_array: u32,
    bound_array_buffer: u32,
    bound_element_buffer: u32,
}

impl Context {
    /// Whether `h` names a currently allocated object.
    pub closed spec fn is_live(&self, h: u32) -> bool {
        self.live@.contains(h)
    }

    /// The next handle the context will hand out.
    pub closed spec fn spec_next_handle(&self) -> u32 {
        self.next_handle
    }

    /// Whether another handle can still be allocated.
    pub open spec fn can_alloc(&self) -> bool {
        self.spec_next_handle() < u32::MAX
    }

    /// The handle of the program activated for draw calls, or 0.
    pub closed spec fn spec_active_program(&self) -> u32 {
        self.active_program
    }

    /// The handle of the vertex array bound for draw calls, or 0.
    pub closed spec fn spec_bound_vertex_array(&self) -> u32 {
        self.bound_vertex_array
    }

    /// The handle of the buffer bound to the vertex-data target, or 0.
    pub closed spec fn spec_bound_array_buffer(&self) -> u32 {
        self.bound_array_buffer
    }

    /// The handle of the buffer bound to the index-data target, or 0.
    pub closed spec fn spec_bound_element_buffer(&self) -> u32 {
        self.bound_element_buffer
    }

    /// Internal consistency: live handles are non-zero, below the
    /// allocation cursor, and distinct.
    pub closed spec fn wf(&self) -> bool {
        &&& 1 <= self.next_handle
        &&& self.live@.no_duplicates()
        &&& forall|i: int|
            0 <= i < self.live@.len() ==> 0 < #[trigger] self.live@[i] < self.next_handle
    }

    /// A fresh context with no objects and nothing bound.
    pub fn new() -> (r: Context)
        ensures
            r.wf(),
            r.can_alloc(),
            forall|h: u32| !r.is_live(h),
            r.spec_active_program() == 0,
            r.spec_bound_vertex_array() == 0,
            r.spec_bound_array_buffer() == 0,
            r.spec_bound_element_buffer() == 0,
    {
        Context {
            next_handle: 1,
            live: Vec::new(),
            active_program: 0,
            bound_vertex_array: 0,
            bound_array_buffer: 0,
            bound_element_buffer: 0,
        }
    }

    /// Executable query for [`Self::is_live`].
    pub fn is_live_handle(&self, h: u32) -> (r: bool)
        ensures
            r == self.is_live(h),
    {
        let n = self.live.len();
        let mut i: usize = 0;
        while i < n
            invariant
                n == self.live@.len(),
                i <= n,
                forall|k: int| 0 <= k < i ==> self.live@[k] != h,
            decreases n - i,
        {
            if self.live[i] == h {
                return true;
            }
            i += 1;
        }
        false
    }

    /// The active program handle, or 0 when none is active.
    pub fn active_program(&self) -> (r: u32)
        ensures
            r == self.spec_active_program(),
    {
        self.active_program
    }

    /// The bound vertex-array handle, or 0 when none is bound.
    pub fn bound_vertex_array(&self) -> (r: u32)
        ensures
            r == self.spec_bound_vertex_array(),
    {
        self.bound_vertex_array
    }

    /// The buffer handle bound to the vertex-data target, or 0.
    pub fn bound_array_buffer(&self) -> (r: u32)
        ensures
            r == self.spec_bound_array_buffer(),
    {
        self.bound_array_buffer
    }

    /// The buffer handle bound to the index-data target, or 0.
    pub fn bound_element_buffer(&self) -> (r: u32)
        ensures
            r == self.spec_bound_element_buffer(),
    {
        self.bound_element_buffer
    }

    /// Allocates a fresh handle.
    pub(crate) fn allocate(&mut self) -> (h: u32)
        requires
            old(self).wf(),
            old(self).can_alloc(),
        ensures
            final(self).wf(),
            allocates(*old(self), *final(self), h),
            h != 0,
    {
        let ghost pre = self.live@;
        let h = self.next_handle;
        self.next_handle = self.next_handle + 1;
        self.live.push(h);
        proof {
            let post = self.live@;
            assert(post[pre.len() as int] == h);
            assert(!pre.contains(h)) by {
                if pre.contains(h) {
                    let k = choose|k: int| 0 <= k < pre.len() && pre[k] == h;
                    assert(pre[k] < h);
                }
            }
            assert forall|x: u32| x != h implies (post.contains(x) <==> pre.contains(x)) by {
                if pre.contains(x) {
                    let k = choose|k: int| 0 <= k < pre.len() && pre[k] == x;
                    assert(post[k] == x);
                }
                if post.contains(x) {
                    let k = choose|k: int| 0 <= k < post.len() && post[k] == x;
                    if k < pre.len() {
                        assert(pre[k] == x);
                    }
                }
            }
            assert(post.no_duplicates()) by {
                assert forall|a: int, b: int| 0 <= a < b < post.len() implies post[a] != post[b]
                    by {
                    if b < pre.len() {
                        assert(pre[a] == post[a] && pre[b] == post[b]);
                    } else {
                        assert(post[b] == h && post[a] == pre[a] && pre[a] < h);
                    }
                }
            }
        }
        h
    }

    /// Releases a live handle.  Binding registers are left alone: a register
    /// may go stale when the object it names is deleted, as under a driver
    /// whose deletes do not rebind.
    pub(crate) fn release(&mut self, h: u32)
        requires
            old(self).wf(),
            old(self).is_live(h),
        ensures
            final(self).wf(),
            releases(*old(self), *final(self), h),
    {
        let n = self.live.len();
        let mut i: usize = 0;
        while i < n && self.live[i] != h
            invariant
                n == self.live@.len(),
                i <= n,
                self.live@.contains(h),
                forall|k: int| 0 <= k < i ==> self.live@[k] != h,
            decreases n - i,
        {
            i += 1;
        }
        proof {
            if i == n {
                let w = choose|w: int| 0 <= w < self.live@.len() && self.live@[w] == h;
                assert(self.live@[w] == h);
                assert(false);
            }
        }
        let ghost pre = self.live@;
        self.live.remove(i);
        proof {
            assert(forall|k: int|
                0 <= k < i ==> #[trigger] self.live@[k] == pre[k]);
            assert(forall|k: int|
                i <= k < self.live@.len() ==> #[trigger] self.live@[k] == pre[k + 1]);
            assert forall|x: u32| #[trigger] self.live@.contains(x)
                implies pre.contains(x) && x != h by {
                let k = choose|k: int| 0 <= k < self.live@.len() && self.live@[k] == x;
                if k < i {
                    assert(pre[k] == x);
                } else {
                    assert(pre[k + 1] == x);
                    assert(k + 1 != i as int);
                    assert(pre[i as int] == h);
                    if x == h {
                        assert(!pre.no_duplicates());
                    }
                }
            }
            assert forall|x: u32| pre.contains(x) && x != h
                implies #[trigger] self.live@.contains(x) by {
                let k = choose|k: int| 0 <= k < pre.len() && pre[k] == x;
                if k < i {
                    assert(self.live@[k] == x);
                } else {
                    assert(k != i as int);
                    assert(self.live@[k - 1] == x);
                }
            }
            assert(self.live@.no_duplicates()) by {
                assert forall|a: int, b: int|
                    0 <= a < b < self.live@.len()
                    implies self.live@[a] != self.live@[b] by {
                    let pa: int = if a < i { a } else { a + 1 };
                    let pb: int = if b < i { b } else { b + 1 };
                    assert(self.live@[a] == pre[pa]);
                    assert(self.live@[b] == pre[pb]);
                }
            }
        }
    }

    /// Makes `h` the active program.
    pub(crate) fn use_program(&mut self, h: u32)
        requires
            old(self).wf(),
            old(self).is_live(h),
        ensures
            final(self).wf(),
            same_live(*old(self), *final(self)),
            final(self).spec_next_handle() == old(self).spec_next_handle(),
            final(self).spec_active_program() == h,
            final(self).spec_bound_vertex_array() == old(self).spec_bound_vertex_array(),
            final(self).spec_bound_array_buffer() == old(self).spec_bound_array_buffer(),
            final(self).spec_bound_element_buffer() == old(self).spec_bound_element_buffer(),
    {
        self.active_program = h;
    }

    /// Binds `h` as the current vertex array.
    pub(crate) fn bind_vertex_array(&mut self, h: u32)
        requires
            old(self).wf(),
            old(self).is_live(h),
        ensures
            final(self).wf(),
            same_live(*old(self), *final(self)),
            final(self).spec_next_handle() == old(self).spec_next_handle(),
            final(self).spec_bound_vertex_array() == h,
            final(self).spec_active_program() == old(self).spec_active_program(),
            final(self).spec_bound_array_buffer() == old(self).spec_bound_array_buffer(),
            final(self).spec_bound_element_buffer() == old(self).spec_bound_element_buffer(),
    {
        self.bound_vertex_array = h;
    }

    /// Binds `h` to the vertex-data buffer target.
    pub(crate) fn bind_array_buffer(&mut self, h: u32)
        requires
            old(self).wf(),
            old(self).is_live(h),
        ensures
            final(self).wf(),
            same_live(*old(self), *final(self)),
            final(self).spec_next_handle() == old(self).spec_next_handle(),
            final(self).spec_bound_array_buffer() == h,
            final(self).spec_active_program() == old(self).spec_active_program(),
            final(self).spec_bound_vertex_array() == old(self).spec_bound_vertex_array(),
            final(self).spec_bound_element_buffer() == old(self).spec_bound_element_buffer(),
    {
        self.bound_array_buffer = h;
    }

    /// Binds `h` to the index-data buffer target.
    pub(crate) fn bind_element_buffer(&mut self, h: u32)
        requires
            old(self).wf(),
            old(self).is_live(h),
        ensures
            final(self).wf(),
            same_live(*old(self), *final(self)),
            final(self).spec_next_handle() == old(self).spec_next_handle(),
            final(self).spec_bound_element_buffer() == h,
            final(self).spec_active_program() == old(self).spec_active_program(),
            final(self).spec_bound_vertex_array() == old(self).spec_bound_vertex_array(),
            final(self).spec_bound_array_buffer() == old(self).spec_bound_array_buffer(),
    {
        self.bound_element_buffer = h;
    }
}

/// Every live handle lies below the allocation cursor, so a handle the
/// context is yet to hand out is never live.
pub proof fn lemma_live_below_cursor(ctx: Context, h: u32)
    requires
        ctx.wf(),
        ctx.is_live(h),
    ensures
        0 < h < ctx.spec_next_handle(),
{
    let k = choose|k: int| 0 <= k < ctx.live@.len() && ctx.live@[k] == h;
    assert(0 < ctx.live@[k] < ctx.spec_next_handle());
}

/// The two contexts agree on which handles are live.
pub open spec fn same_live(pre: Context, post: Context) -> bool {
    forall|x: u32| post.is_live(x) <==> pre.is_live(x)
}

/// The two contexts agree on every binding register.
pub open spec fn same_bindings(pre: Context, post: Context) -> bool {
    &&& post.spec_active_program() == pre.spec_active_program()
    &&& post.spec_bound_vertex_array() == pre.spec_bound_vertex_array()
    &&& post.spec_bound_array_buffer() == pre.spec_bound_array_buffer()
    &&& post.spec_bound_element_buffer() == pre.spec_bound_element_buffer()
}

/// `post` is `pre` with exactly the fresh handle `h` added; nothing is
/// rebound.
pub open spec fn allocates(pre: Context, post: Context, h: u32) -> bool {
    &&& !pre.is_live(h)
    &&& post.is_live(h)
    &&& forall|x: u32| x != h ==> (post.is_live(x) <==> pre.is_live(x))
    &&& h == pre.spec_next_handle()
    &&& post.spec_next_handle() == pre.spec_next_handle() + 1
    &&& same_bindings(pre, post)
}

/// `post` is `pre` with exactly the handle `h` gone; nothing is rebound.
pub open spec fn releases(pre: Context, post: Context, h: u32) -> bool {
    &&& !post.is_live(h)
    &&& forall|x: u32| x != h ==> (post.is_live(x) <==> pre.is_live(x))
    &&& post.spec_next_handle() == pre.spec_next_handle()
    &&& same_bindings(pre, post)
}

} // verus!
