//! Cooperative `java.lang.Thread` / `Runnable` state for deterministic runtimes:
//! runtime-owned thread identities, a one-shot start transition and a FIFO
//! start queue that the host dispatches explicitly.

use vstd::prelude::*;
use super::{JavaError, JavaResult};

verus! {

/// A Java `Thread` reference in the runtime-owned arena.
#[derive(Debug, Clone, Copy, PartialEq, Eq, Hash, Structural)]
pub struct ThreadId(pub usize);

/// The identity of the object given as `new Thread(Runnable)`'s target.
#[derive(Debug, Clone, Copy, PartialEq, Eq, Hash, Structural)]
pub struct RunnableId(pub usize);

/// The lifecycle observable through this cooperative runtime.
#[derive(Debug, Clone, Copy, PartialEq, Eq, Structural)]
pub enum ThreadState {
    New,
    Started,
    Terminated,
}

/// An ordered operation for the host scheduler.
#[derive(Debug, Clone, Copy, PartialEq, Eq, Structural)]
pub enum HostThreadOp {
    Start { thread: ThreadId, target: Option<RunnableId> },
}

#[derive(Debug)]
struct ThreadCell {
    target: Option<RunnableId>,
    state: ThreadState,
}

/// Runtime-owned Java thread identities and their deterministic start queue.
#[derive(Debug)]
pub struct ThreadRuntime {
    threads: Vec<ThreadCell>,
    pending: std::collections::VecDeque<ThreadId>,
    host_ops: Vec<HostThreadOp>,
    current: Option<ThreadId>,
}

/// The observable state of a [`ThreadRuntime`].
pub struct ThreadRuntimeView {
    /// Every allocated thread: its target and lifecycle state.
    pub threads: Seq<(Option<RunnableId>, ThreadState)>,
    /// Started threads not yet dispatched, oldest first.
    pub pending: Seq<ThreadId>,
    /// The host-operation log.
    pub host_ops: Seq<HostThreadOp>,
    /// `Thread.currentThread()` during a dispatch.
    pub current: Option<ThreadId>,
}

impl View for ThreadRuntime {
    type V = ThreadRuntimeView;

    closed spec fn view(&self) -> ThreadRuntimeView {
        ThreadRuntimeView {
            threads: self.threads@.map_values(|c: ThreadCell| (c.target, c.state)),
            pending: self.pending@,
            host_ops: self.host_ops@,
            current: self.current,
        }
    }
}

impl ThreadRuntime {
    pub fn new() -> (r: Self)
        ensures
            r@.threads.len() == 0, r@.pending.len() == 0, r@.host_ops.len() == 0,
            r@.current is None,
    {
        ThreadRuntime {
            threads: Vec::new(),
            pending: std::collections::VecDeque::new(),
            host_ops: Vec::new(),
            current: None,
        }
    }

    /// `new Thread(target)`: a fresh thread in the `NEW` state.
    pub fn new_thread(&mut self, target: Option<RunnableId>) -> (r: ThreadId)
        ensures
            r.0 == old(self)@.threads.len(),
            final(self)@.threads == old(self)@.threads.push((target, ThreadState::New)),
            final(self)@.pending == old(self)@.pending,
            final(self)@.host_ops == old(self)@.host_ops,
            final(self)@.current == old(self)@.current,
    {
        let thread = ThreadId(self.threads.len());
        self.threads.push(ThreadCell { target, state: ThreadState::New });
        proof {
            assert(self@.threads =~= old(self)@.threads.push((target, ThreadState::New)));
        }
        thread
    }

    pub fn state(&self, thread: ThreadId) -> (r: JavaResult<ThreadState>)
        ensures
            thread.0 < self@.threads.len() ==> r == Ok::<ThreadState, JavaError>(self@.threads[thread.0 as int].1),
            thread.0 >= self@.threads.len() ==> r == Err::<ThreadState, JavaError>(JavaError::NullPointer),
    {
        if thread.0 < self.threads.len() {
            Ok(self.threads[thread.0].state)
        } else {
            Err(JavaError::NullPointer)
        }
    }

    pub fn target(&self, thread: ThreadId) -> (r: JavaResult<Option<RunnableId>>)
        ensures
            thread.0 < self@.threads.len() ==> r == Ok::<Option<RunnableId>, JavaError>(self@.threads[thread.0 as int].0),
            thread.0 >= self@.threads.len() ==> r == Err::<Option<RunnableId>, JavaError>(JavaError::NullPointer),
    {
        if thread.0 < self.threads.len() {
            Ok(self.threads[thread.0].target)
        } else {
            Err(JavaError::NullPointer)
        }
    }

    /// `Thread.currentThread()` while a queued Runnable is being dispatched.
    pub fn current_thread(&self) -> (r: Option<ThreadId>)
        ensures r == self@.current,
    {
        self.current
    }

    /// `Thread.start()`: the one-shot `NEW -> STARTED` transition, which
    /// queues the thread and logs the host operation.
    pub fn start(&mut self, thread: ThreadId) -> (r: JavaResult<()>)
        ensures
            thread.0 >= old(self)@.threads.len() ==> r == Err::<(), JavaError>(JavaError::NullPointer)
                && final(self)@ == old(self)@,
            thread.0 < old(self)@.threads.len() && old(self)@.threads[thread.0 as int].1 != ThreadState::New
                ==> r == Err::<(), JavaError>(JavaError::IllegalThreadState) && final(self)@ == old(self)@,
            thread.0 < old(self)@.threads.len() && old(self)@.threads[thread.0 as int].1 == ThreadState::New ==> {
                &&& r is Ok
                &&& final(self)@.threads == old(self)@.threads.update(thread.0 as int,
                        (old(self)@.threads[thread.0 as int].0, ThreadState::Started))
                &&& final(self)@.pending == old(self)@.pending.push(thread)
                &&& final(self)@.host_ops == old(self)@.host_ops.push(
                        HostThreadOp::Start { thread, target: old(self)@.threads[thread.0 as int].0 })
                &&& final(self)@.current == old(self)@.current
            },
    {
        if thread.0 >= self.threads.len() {
            return Err(JavaError::NullPointer);
        }
        if self.threads[thread.0].state != ThreadState::New {
            return Err(JavaError::IllegalThreadState);
        }
        let target = self.threads[thread.0].target;
        self.threads.set(thread.0, ThreadCell { target, state: ThreadState::Started });
        self.pending.push_back(thread);
        self.host_ops.push(HostThreadOp::Start { thread, target });
        proof {
            assert(self@.threads =~= old(self)@.threads.update(thread.0 as int, (target, ThreadState::Started)));
        }
        Ok(())
    }

    /// Cooperatively runs the oldest started thread: a null target finishes
    /// without a call; otherwise `run` receives the runtime, the thread and
    /// its target while `current_thread()` names that thread. Whether `run`
    /// succeeds or fails, the thread ends `TERMINATED` and the previous
    /// current thread is restored; the failure is returned to the host.
    pub fn dispatch_next<Run, E>(&mut self, run: Run) -> (r: Result<Option<ThreadId>, E>)
        where Run: FnOnce(&mut ThreadRuntime, ThreadId, RunnableId) -> Result<(), E>,
        requires
            forall|rt: &mut ThreadRuntime, t: ThreadId, id: RunnableId| call_requires(run, (rt, t, id)),
        ensures
            old(self)@.pending.len() == 0 ==> (r matches Ok(None)) && final(self)@ == old(self)@,
            old(self)@.pending.len() > 0 ==> {
                let thread = old(self)@.pending[0];
                &&& (r matches Ok(Some(t)) && t == thread) || r is Err
                &&& final(self)@.current == old(self)@.current
                &&& thread.0 < final(self)@.threads.len() ==> final(self)@.threads[thread.0 as int].1 == ThreadState::Terminated
                &&& thread.0 < old(self)@.threads.len() && old(self)@.threads[thread.0 as int].0 is None ==> r is Ok
                    && final(self)@.threads == old(self)@.threads.update(thread.0 as int,
                        (old(self)@.threads[thread.0 as int].0, ThreadState::Terminated))
                    && final(self)@.pending == old(self)@.pending.drop_first()
                    && final(self)@.host_ops == old(self)@.host_ops
                &&& thread.0 < old(self)@.threads.len() ==> (old(self)@.threads[thread.0 as int].0 matches Some(id)
                    ==> exists|rt: &mut ThreadRuntime, res: Result<(), E>|
                    #![trigger call_ensures(run, (rt, thread, id), res)]
                    {
                        &&& (*rt)@.current == Some(thread)
                        &&& (*rt)@.threads == old(self)@.threads
                        &&& (*rt)@.pending == old(self)@.pending.drop_first()
                        &&& call_ensures(run, (rt, thread, id), res)
                        &&& r == match res {
                            Ok(()) => Ok::<Option<ThreadId>, E>(Some(thread)),
                            Err(e) => Err::<Option<ThreadId>, E>(e),
                        }
                    })
            },
    {
        let thread = match self.pending.pop_front() {
            Some(t) => t,
            None => return Ok(None),
        };
        if thread.0 >= self.threads.len() {
            return Ok(Some(thread));
        }
        let target = self.threads[thread.0].target;
        let previous = self.current;
        self.current = Some(thread);
        let result = match target {
            Some(target) => run(self, thread, target),
            None => Ok(()),
        };
        self.current = previous;
        if thread.0 < self.threads.len() {
            let t = self.threads[thread.0].target;
            self.threads.set(thread.0, ThreadCell { target: t, state: ThreadState::Terminated });
        }
        match result {
            Ok(()) => Ok(Some(thread)),
            Err(e) => Err(e),
        }
    }

    pub fn has_pending(&self) -> (r: bool)
        ensures r == (self@.pending.len() > 0),
    {
        self.pending.len() != 0
    }

    pub fn host_ops(&self) -> (r: &[HostThreadOp])
        ensures r@ == self@.host_ops,
    {
        self.host_ops.as_slice()
    }

    /// Takes the ordered host-operation log without touching queued work.
    pub fn drain_host_ops(&mut self) -> (r: Vec<HostThreadOp>)
        ensures
            r@ == old(self)@.host_ops, final(self)@.host_ops.len() == 0,
            final(self)@.threads == old(self)@.threads, final(self)@.pending == old(self)@.pending,
            final(self)@.current == old(self)@.current,
    {
        let mut taken = Vec::new();
        std::mem::swap(&mut taken, &mut self.host_ops);
        taken
    }
}

} // verus!
