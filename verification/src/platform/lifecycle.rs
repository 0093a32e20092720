//! Conversion from host focus events to explicit MIDP/display actions.

use vstd::prelude::*;
use crate::device::{FocusGainPolicy, FocusLossPolicy, LifecycleFragment};

verus! {

#[derive(Debug, Clone, Copy, PartialEq, Eq, Structural)]
pub enum LifecycleAction {
    Start,
    Pause,
    Show,
    Hide,
}

/// The actions a focus change calls for, in the order the profile gives.
pub open spec fn focus_actions_spec(policy: LifecycleFragment, focused: bool) -> Seq<LifecycleAction> {
    if focused {
        match policy.focus_gain {
            FocusGainPolicy::NoAction => seq![],
            FocusGainPolicy::Show => seq![LifecycleAction::Show],
            FocusGainPolicy::StartThenShow => seq![LifecycleAction::Start, LifecycleAction::Show],
            FocusGainPolicy::ShowThenStart => seq![LifecycleAction::Show, LifecycleAction::Start],
        }
    } else {
        match policy.focus_loss {
            FocusLossPolicy::NoAction => seq![],
            FocusLossPolicy::Hide => seq![LifecycleAction::Hide],
            FocusLossPolicy::PauseThenHide => seq![LifecycleAction::Pause, LifecycleAction::Hide],
            FocusLossPolicy::HideThenPause => seq![LifecycleAction::Hide, LifecycleAction::Pause],
        }
    }
}

/// The MIDP lifecycle and display actions a gain (`focused`) or loss of
/// focus calls for, in the device profile's order.
pub fn focus_actions(policy: &LifecycleFragment, focused: bool) -> (r: Vec<LifecycleAction>)
    ensures
        r@ == focus_actions_spec(*policy, focused),
{
    let r = if focused {
        match policy.focus_gain {
            FocusGainPolicy::NoAction => vec![],
            FocusGainPolicy::Show => vec![LifecycleAction::Show],
            FocusGainPolicy::StartThenShow => vec![LifecycleAction::Start, LifecycleAction::Show],
            FocusGainPolicy::ShowThenStart => vec![LifecycleAction::Show, LifecycleAction::Start],
        }
    } else {
        match policy.focus_loss {
            FocusLossPolicy::NoAction => vec![],
            FocusLossPolicy::Hide => vec![LifecycleAction::Hide],
            FocusLossPolicy::PauseThenHide => vec![LifecycleAction::Pause, LifecycleAction::Hide],
            FocusLossPolicy::HideThenPause => vec![LifecycleAction::Hide, LifecycleAction::Pause],
        }
    };
    assert(r@ =~= focus_actions_spec(*policy, focused));
    r
}

/// Focus tracking that suppresses duplicate host notifications.
#[derive(Debug, Clone)]
pub struct FocusLifecycle {
    focused: Option<bool>,
    policy: LifecycleFragment,
}

impl FocusLifecycle {
    /// The focus last reported, if any, and the profile's policy.
    pub closed spec fn last_focus(&self) -> Option<bool> {
        self.focused
    }

    pub closed spec fn policy(&self) -> LifecycleFragment {
        self.policy
    }

    pub fn new(policy: LifecycleFragment) -> (r: Self)
        ensures
            r.last_focus() is None,
            r.policy() == policy,
    {
        FocusLifecycle { focused: None, policy }
    }

    /// The actions a host focus notification calls for: none when it repeats
    /// the focus last reported, else the profile's ordered actions.
    pub fn changed(&mut self, focused: bool) -> (r: Vec<LifecycleAction>)
        ensures
            final(self).policy() == old(self).policy(),
            final(self).last_focus() == Some(focused),
            old(self).last_focus() == Some(focused) ==> r@.len() == 0,
            old(self).last_focus() != Some(focused) ==> r@ == focus_actions_spec(old(self).policy(), focused),
    {
        if self.focused == Some(focused) {
            return vec![];
        }
        self.focused = Some(focused);
        focus_actions(&self.policy, focused)
    }
}

} // verus!
