//! `javax.microedition.midlet.MIDlet` lifecycle state.
//!
//! This models the framework boundary only. Whether a desktop window losing
//! focus should ask the application manager to pause is host policy and is not
//! encoded here.

use vstd::prelude::*;
use crate::jvm::JavaError;

verus! {

#[derive(Debug, Clone, Copy, PartialEq, Eq, Structural)]
pub enum MidletState {
    Paused,
    Active,
    Destroyed,
}

/// Callback the application manager must deliver to the game. The caller
/// commits it only after the callback succeeds, preserving the fact that
/// `startApp` and conditional `destroyApp` may throw.
#[derive(Debug, Clone, Copy, PartialEq, Eq, Structural)]
pub enum MidletCallback {
    StartApp,
    PauseApp,
    DestroyApp { unconditional: bool },
}

/// Operation requested by the MIDlet itself through a final framework method.
#[derive(Debug, Clone, PartialEq, Eq)]
pub enum HostMidletOp {
    NotifyPaused,
    ResumeRequest,
    NotifyDestroyed,
    PlatformRequest { url: String },
}

#[derive(Debug)]
pub struct MidletLifecycle {
    state: MidletState,
    host_ops: Vec<HostMidletOp>,
    platform_request_result: Option<bool>,
}

/// The observable state of a [`MidletLifecycle`].
pub struct MidletLifecycleView {
    pub state: MidletState,
    /// Requests for the host, oldest first.
    pub host_ops: Seq<HostMidletOp>,
    /// What `platformRequest` answers, or `None` where the profile has no
    /// URL handler.
    pub platform_request_result: Option<bool>,
}

impl View for MidletLifecycle {
    type V = MidletLifecycleView;

    closed spec fn view(&self) -> MidletLifecycleView {
        MidletLifecycleView {
            state: self.state,
            host_ops: self.host_ops@,
            platform_request_result: self.platform_request_result,
        }
    }
}

impl Default for MidletLifecycle {
    /// A constructed MIDlet begins paused until the application manager
    /// invokes `startApp` for the first time.
    fn default() -> (r: Self)
        ensures
            r@.state == MidletState::Paused,
            r@.host_ops == Seq::<HostMidletOp>::empty(),
            r@.platform_request_result is None,
    {
        Self { state: MidletState::Paused, host_ops: Vec::new(), platform_request_result: None }
    }
}

/// The callback that a start request yields from `state`, or why it is refused.
pub open spec fn start_outcome(state: MidletState) -> Result<MidletCallback, JavaError> {
    match state {
        MidletState::Paused => Ok(MidletCallback::StartApp),
        MidletState::Active => Err(JavaError::IllegalState("MIDlet is already active")),
        MidletState::Destroyed => Err(JavaError::IllegalState("MIDlet is destroyed")),
    }
}

pub open spec fn pause_outcome(state: MidletState) -> Result<MidletCallback, JavaError> {
    match state {
        MidletState::Active => Ok(MidletCallback::PauseApp),
        MidletState::Paused => Err(JavaError::IllegalState("MIDlet is already paused")),
        MidletState::Destroyed => Err(JavaError::IllegalState("MIDlet is destroyed")),
    }
}

/// The state a committed callback leads to, or `None` for a stale callback.
pub open spec fn committed_state(state: MidletState, callback: MidletCallback) -> Option<MidletState> {
    match callback {
        MidletCallback::StartApp => if state == MidletState::Paused {
            Some(MidletState::Active)
        } else {
            None
        },
        MidletCallback::PauseApp => if state == MidletState::Active {
            Some(MidletState::Paused)
        } else {
            None
        },
        MidletCallback::DestroyApp { .. } => if state != MidletState::Destroyed {
            Some(MidletState::Destroyed)
        } else {
            None
        },
    }
}

impl MidletLifecycle {
    pub fn new() -> (r: Self)
        ensures
            r@.state == MidletState::Paused,
            r@.host_ops == Seq::<HostMidletOp>::empty(),
            r@.platform_request_result is None,
    {
        Self::default()
    }

    /// Configure support for `platformRequest`; the boolean is the MIDP return
    /// value (whether the MIDlet must exit before the request can proceed).
    pub fn with_platform_request_result(result: Option<bool>) -> (r: Self)
        ensures
            r@.state == MidletState::Paused,
            r@.host_ops == Seq::<HostMidletOp>::empty(),
            r@.platform_request_result == result,
    {
        Self { state: MidletState::Paused, host_ops: Vec::new(), platform_request_result: result }
    }

    pub fn state(&self) -> (r: MidletState)
        ensures
            r == self@.state,
    {
        self.state
    }

    pub fn request_start(&self) -> (r: Result<MidletCallback, JavaError>)
        ensures
            r == start_outcome(self@.state),
    {
        match self.state {
            MidletState::Paused => Ok(MidletCallback::StartApp),
            MidletState::Active => Err(JavaError::IllegalState("MIDlet is already active")),
            MidletState::Destroyed => Err(JavaError::IllegalState("MIDlet is destroyed")),
        }
    }

    pub fn request_pause(&self) -> (r: Result<MidletCallback, JavaError>)
        ensures
            r == pause_outcome(self@.state),
    {
        match self.state {
            MidletState::Active => Ok(MidletCallback::PauseApp),
            MidletState::Paused => Err(JavaError::IllegalState("MIDlet is already paused")),
            MidletState::Destroyed => Err(JavaError::IllegalState("MIDlet is destroyed")),
        }
    }

    pub fn request_destroy(&self, unconditional: bool) -> (r: Result<MidletCallback, JavaError>)
        ensures
            self@.state == MidletState::Destroyed ==> r == Err::<MidletCallback, JavaError>(
                JavaError::IllegalState("MIDlet is destroyed"),
            ),
            self@.state != MidletState::Destroyed ==> r == Ok::<MidletCallback, JavaError>(
                MidletCallback::DestroyApp { unconditional },
            ),
    {
        if self.state == MidletState::Destroyed {
            Err(JavaError::IllegalState("MIDlet is destroyed"))
        } else {
            Ok(MidletCallback::DestroyApp { unconditional })
        }
    }

    /// Commit a callback only after the game implementation returned normally.
    pub fn commit(&mut self, callback: MidletCallback) -> (r: Result<(), JavaError>)
        ensures
            final(self)@.host_ops == old(self)@.host_ops,
            final(self)@.platform_request_result == old(self)@.platform_request_result,
            match committed_state(old(self)@.state, callback) {
                Some(next) => r is Ok && final(self)@.state == next,
                None => r == Err::<(), JavaError>(JavaError::IllegalState("stale MIDlet callback"))
                    && final(self)@.state == old(self)@.state,
            },
    {
        let next = match callback {
            MidletCallback::StartApp => if self.state == MidletState::Paused {
                MidletState::Active
            } else {
                return Err(JavaError::IllegalState("stale MIDlet callback"));
            },
            MidletCallback::PauseApp => if self.state == MidletState::Active {
                MidletState::Paused
            } else {
                return Err(JavaError::IllegalState("stale MIDlet callback"));
            },
            MidletCallback::DestroyApp { .. } => if self.state != MidletState::Destroyed {
                MidletState::Destroyed
            } else {
                return Err(JavaError::IllegalState("stale MIDlet callback"));
            },
        };
        self.state = next;
        Ok(())
    }

    /// `MIDlet.notifyPaused()`: no `pauseApp` callback is generated.
    pub fn notify_paused(&mut self) -> (r: Result<(), JavaError>)
        ensures
            final(self)@.platform_request_result == old(self)@.platform_request_result,
            old(self)@.state == MidletState::Destroyed ==> r == Err::<(), JavaError>(
                JavaError::IllegalState("MIDlet is destroyed"),
            ) && final(self)@ == old(self)@,
            old(self)@.state != MidletState::Destroyed ==> r is Ok && final(self)@.state == MidletState::Paused
                && final(self)@.host_ops == old(self)@.host_ops.push(HostMidletOp::NotifyPaused),
    {
        if self.state == MidletState::Destroyed {
            return Err(JavaError::IllegalState("MIDlet is destroyed"));
        }
        self.state = MidletState::Paused;
        self.host_ops.push(HostMidletOp::NotifyPaused);
        Ok(())
    }

    /// `MIDlet.resumeRequest()`: the application manager may later call
    /// `startApp`; the request itself does not activate the MIDlet.
    pub fn resume_request(&mut self) -> (r: Result<(), JavaError>)
        ensures
            final(self)@.state == old(self)@.state,
            final(self)@.platform_request_result == old(self)@.platform_request_result,
            old(self)@.state == MidletState::Destroyed ==> r == Err::<(), JavaError>(
                JavaError::IllegalState("MIDlet is destroyed"),
            ) && final(self)@ == old(self)@,
            old(self)@.state != MidletState::Destroyed ==> r is Ok && final(self)@.host_ops
                == old(self)@.host_ops.push(HostMidletOp::ResumeRequest),
    {
        if self.state == MidletState::Destroyed {
            return Err(JavaError::IllegalState("MIDlet is destroyed"));
        }
        self.host_ops.push(HostMidletOp::ResumeRequest);
        Ok(())
    }

    /// `MIDlet.notifyDestroyed()`: enter the terminal state without a callback.
    pub fn notify_destroyed(&mut self)
        ensures
            final(self)@.state == MidletState::Destroyed,
            final(self)@.platform_request_result == old(self)@.platform_request_result,
            final(self)@.host_ops == old(self)@.host_ops.push(HostMidletOp::NotifyDestroyed),
    {
        self.state = MidletState::Destroyed;
        self.host_ops.push(HostMidletOp::NotifyDestroyed);
    }

    /// `MIDlet.platformRequest(url)`. Actual URL handling remains a host
    /// operation; unsupported profiles throw `ConnectionNotFoundException`.
    pub fn platform_request(&mut self, url: &str) -> (r: Result<bool, JavaError>)
        ensures
            final(self)@.state == old(self)@.state,
            final(self)@.platform_request_result == old(self)@.platform_request_result,
            old(self)@.state == MidletState::Destroyed ==> r == Err::<bool, JavaError>(
                JavaError::IllegalState("MIDlet is destroyed"),
            ),
            old(self)@.state != MidletState::Destroyed && url@.len() == 0 ==> r matches Err(
                JavaError::ConnectionNotFound(_),
            ),
            old(self)@.state != MidletState::Destroyed && url@.len() > 0
                && old(self)@.platform_request_result is None ==> r matches Err(JavaError::ConnectionNotFound(_)),
            r is Err ==> final(self)@.host_ops == old(self)@.host_ops,
            r matches Ok(b) ==> (old(self)@.state != MidletState::Destroyed && url@.len() > 0
                && old(self)@.platform_request_result == Some(b) && final(self)@.host_ops.len()
                == old(self)@.host_ops.len() + 1 && final(self)@.host_ops.drop_last() == old(self)@.host_ops
                && (final(self)@.host_ops.last() matches HostMidletOp::PlatformRequest { url: u } && u@
                == url@)),
    {
        if self.state == MidletState::Destroyed {
            return Err(JavaError::IllegalState("MIDlet is destroyed"));
        }
        if url.is_empty() {
            return Err(JavaError::ConnectionNotFound(String::from_str("empty URL")));
        }
        let result = match self.platform_request_result {
            Some(result) => result,
            None => {
                let message = String::from_str("unsupported URL: ").concat(url);
                return Err(JavaError::ConnectionNotFound(message));
            },
        };
        self.host_ops.push(HostMidletOp::PlatformRequest { url: url.to_owned() });
        proof {
            assert(self@.host_ops.drop_last() =~= old(self)@.host_ops);
        }
        Ok(result)
    }

    /// Hands the pending host requests over, oldest first, and forgets them.
    pub fn drain_host_ops(&mut self) -> (r: Vec<HostMidletOp>)
        ensures
            r@ == old(self)@.host_ops,
            final(self)@.host_ops == Seq::<HostMidletOp>::empty(),
            final(self)@.state == old(self)@.state,
            final(self)@.platform_request_result == old(self)@.platform_request_result,
    {
        let mut drained = Vec::new();
        std::mem::swap(&mut drained, &mut self.host_ops);
        drained
    }
}

/// A callback is committed only from the state that requested it: a start
/// request followed by its commit activates a paused MIDlet, a pause request
/// followed by its commit pauses an active one, and the destroyed state is
/// terminal for every callback.
pub proof fn lemma_request_then_commit(state: MidletState, callback: MidletCallback)
    ensures
        start_outcome(state) == Ok::<MidletCallback, JavaError>(callback) ==> committed_state(state, callback)
            == Some(MidletState::Active),
        pause_outcome(state) == Ok::<MidletCallback, JavaError>(callback) ==> committed_state(state, callback)
            == Some(MidletState::Paused),
        state == MidletState::Destroyed ==> committed_state(state, callback) is None,
{
}

} // verus!
