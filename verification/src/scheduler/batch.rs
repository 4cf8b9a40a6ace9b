//! A batch of posts that are run, so many at a time.
use vstd::prelude::*;

verus! {

/// How far a batch has come: its first posts have been handed out, and some of those are
/// still running.
#[derive(Debug, Clone, Copy, PartialEq, Eq, Structural)]
pub struct Batch {
    pub posts: usize,
    pub handed: usize,
    pub running: usize,
    /// How many posts may run at once.
    pub cap: usize,
}

/// What is to be done next.
#[derive(Debug, Clone, Copy, PartialEq, Eq, Structural)]
pub enum BatchStep {
    /// Start the post at this place.
    Run(usize),
    /// Wait until one of those that run is done.
    Wait,
    /// Every post was run.
    Over,
}

impl Batch {
    pub open spec fn wf(self) -> bool {
        &&& 1 <= self.cap
        &&& self.handed <= self.posts
        &&& self.running <= self.handed
        &&& self.running <= self.cap
    }

    /// The posts are started in their order, as long as there is room.
    pub open spec fn next(self) -> BatchStep {
        if self.running < self.cap && self.handed < self.posts {
            BatchStep::Run(self.handed)
        } else if self.running > 0 {
            BatchStep::Wait
        } else {
            BatchStep::Over
        }
    }

    pub open spec fn after_step(self) -> Self {
        match self.next() {
            BatchStep::Run(_) => Batch {
                handed: (self.handed + 1) as usize,
                running: (self.running + 1) as usize,
                ..self
            },
            _ => self,
        }
    }

    pub open spec fn after_join(self) -> Self {
        Batch { running: (self.running - 1) as usize, ..self }
    }

    /// What is left to do: to start a post, and to see it end.
    pub open spec fn work_left(self) -> int {
        2 * (self.posts - self.handed) + self.running
    }

    /// A batch of which nothing was started; at least one post runs at a time.
    pub fn start(posts: usize, max_concurrent: usize) -> (r: Self)
        ensures
            r.wf(),
            r.posts == posts,
            r.handed == 0,
            r.running == 0,
            r.cap == (if max_concurrent > 1 {
                max_concurrent
            } else {
                1
            }),
    {
        let cap: usize = if max_concurrent > 1 {
            max_concurrent
        } else {
            1
        };
        Batch { posts, handed: 0, running: 0, cap }
    }

    pub fn step(&mut self) -> (r: BatchStep)
        requires
            old(self).wf(),
        ensures
            r == old(self).next(),
            *final(self) == old(self).after_step(),
            final(self).wf(),
    {
        if self.running < self.cap && self.handed < self.posts {
            let at = self.handed;
            self.handed = self.handed + 1;
            self.running = self.running + 1;
            BatchStep::Run(at)
        } else if self.running > 0 {
            BatchStep::Wait
        } else {
            BatchStep::Over
        }
    }

    /// One of the running posts is done.
    pub fn joined(&mut self)
        requires
            old(self).wf(),
            old(self).running > 0,
        ensures
            *final(self) == old(self).after_join(),
            final(self).wf(),
    {
        self.running = self.running - 1;
    }
}

/// A batch neither stops early nor runs a post twice: each post is handed out once, in
/// its order, and the batch is over exactly when all were handed out and none runs.
pub proof fn a_batch_hands_out_every_post_once(b: Batch)
    requires
        b.wf(),
    ensures
        b.next() matches BatchStep::Run(i) ==> i == b.handed && i < b.posts
            && b.after_step().handed == i + 1,
        !(b.next() is Run) ==> b.after_step() == b,
        b.next() == BatchStep::Over <==> b.handed == b.posts && b.running == 0,
        b.next() == BatchStep::Wait ==> b.running > 0,
{
}

/// A batch comes to its end: every start and every join leaves less to do.
pub proof fn a_batch_comes_to_its_end(b: Batch)
    requires
        b.wf(),
    ensures
        b.work_left() >= 0,
        b.work_left() == 0 <==> b.next() == BatchStep::Over,
        b.next() is Run ==> b.after_step().work_left() == b.work_left() - 1,
        b.running > 0 ==> b.after_join().wf() && b.after_join().work_left() == b.work_left() - 1,
{
}

/// No room is left idle: a batch waits only while as many posts run as may, or none is
/// left to start; and never do more run than may.
pub proof fn a_batch_leaves_no_room_idle(b: Batch)
    requires
        b.wf(),
    ensures
        b.next() is Run <==> b.running < b.cap && b.handed < b.posts,
        b.next() == BatchStep::Wait ==> b.running == b.cap || b.handed == b.posts,
        b.next() is Run ==> b.after_step().running == b.running + 1 && b.after_step().running
            <= b.cap,
        b.after_step().posts == b.posts && b.after_step().cap == b.cap,
        b.running > 0 ==> b.after_join().running == b.running - 1 && b.after_join().handed
            == b.handed && b.after_join().posts == b.posts && b.after_join().cap == b.cap,
{
}

} // verus!
