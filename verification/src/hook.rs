//! The hook bridge: what the thread that owns an input hook does, and when.
//!
//! A hook is installed once, on a thread of its own, and lives as long as the
//! process. The thread tries to install it, tells the host if that was
//! refused, and from then on only sleeps in short naps so that the hook keeps
//! a live thread behind it. It never retries and never reinstalls.
//!
//! The thread itself, the installation and the naps belong to the driver.
//! [`HookBridge`] makes the decisions: the driver reports what happened as a
//! [`BridgeEvent`] and carries out the [`BridgeAction`] it gets back.

use vstd::prelude::*;

verus! {

/// How long one nap of a hook thread lasts, in milliseconds.
pub const KEEPALIVE_MILLIS: u64 = 100;

/// The class of device that a hook listens to.
#[derive(Copy, Clone, Debug, PartialEq, Eq, Hash, Structural)]
pub enum HookDevice {
    Keyboard,
    Mouse,
}

/// Why a hook could not be installed.
#[derive(Copy, Clone, Debug, PartialEq, Eq, Hash, Structural)]
pub enum HookFailure {
    /// The system withheld the privilege that hooking needs.
    PermissionDenied,
    /// Any other refusal.
    Other,
}

/// Tells the host that a hook was not installed: no event of that device will
/// ever arrive.
#[derive(Copy, Clone, Debug, PartialEq, Eq, Hash, Structural)]
pub struct HookInstallFailed {
    pub device: HookDevice,
    pub reason: HookFailure,
}

/// Where a hook thread stands.
#[derive(Copy, Clone, Debug, PartialEq, Eq, Hash, Structural)]
pub enum BridgeState {
    /// Nothing has been attempted yet.
    Created,
    /// The installation was asked for and its outcome is awaited.
    Installing,
    /// The outcome is known; the thread only keeps itself alive.
    Holding,
}

/// What the driver reports to the bridge.
#[derive(Copy, Clone, Debug, PartialEq, Eq, Hash, Structural)]
pub enum BridgeEvent {
    /// The thread has started.
    Started,
    /// The hook is in place.
    Installed,
    /// The hook was refused.
    Refused(HookFailure),
    /// The last action is done.
    Resumed,
}

/// What the driver is to do next.
#[derive(Copy, Clone, Debug, PartialEq, Eq, Hash, Structural)]
pub enum BridgeAction {
    /// Install the hook, and report `Installed` or `Refused`.
    InstallHook,
    /// Hand this to the host, then report `Resumed`.
    Report(HookInstallFailed),
    /// Sleep this many milliseconds, then report `Resumed`.
    Sleep(u64),
}

/// The bridge's next state and action for `event` in `state`.
pub open spec fn bridge_next(device: HookDevice, state: BridgeState, event: BridgeEvent) -> (
    BridgeState,
    BridgeAction,
) {
    match state {
        BridgeState::Created => (BridgeState::Installing, BridgeAction::InstallHook),
        BridgeState::Installing => match event {
            BridgeEvent::Installed => (BridgeState::Holding, BridgeAction::Sleep(KEEPALIVE_MILLIS)),
            BridgeEvent::Refused(reason) => (
                BridgeState::Holding,
                BridgeAction::Report(HookInstallFailed { device, reason }),
            ),
            _ => (BridgeState::Installing, BridgeAction::Sleep(KEEPALIVE_MILLIS)),
        },
        BridgeState::Holding => (BridgeState::Holding, BridgeAction::Sleep(KEEPALIVE_MILLIS)),
    }
}

/// The actions that a bridge in `state` answers to `events` with, one per
/// event.
pub open spec fn bridge_run(device: HookDevice, state: BridgeState, events: Seq<BridgeEvent>) -> Seq<
    BridgeAction,
>
    decreases events.len(),
{
    if events.len() == 0 {
        Seq::empty()
    } else {
        let (next, action) = bridge_next(device, state, events.first());
        seq![action] + bridge_run(device, next, events.drop_first())
    }
}

/// The decisions of one hook thread.
#[derive(Copy, Clone, Debug, PartialEq, Eq, Structural)]
pub struct HookBridge {
    device: HookDevice,
    state: BridgeState,
}

impl HookBridge {
    /// The device this bridge hooks.
    pub closed spec fn spec_device(&self) -> HookDevice {
        self.device
    }

    /// Where the bridge stands.
    pub closed spec fn spec_state(&self) -> BridgeState {
        self.state
    }

    /// The device this bridge hooks.
    #[verifier::when_used_as_spec(spec_device)]
    pub fn device(&self) -> (device: HookDevice)
        ensures
            device == self.spec_device(),
    {
        self.device
    }

    /// Where the bridge stands.
    #[verifier::when_used_as_spec(spec_state)]
    pub fn state(&self) -> (state: BridgeState)
        ensures
            state == self.spec_state(),
    {
        self.state
    }

    /// A bridge for `device` that has not attempted anything.
    pub fn new(device: HookDevice) -> (bridge: HookBridge)
        ensures
            bridge.device() == device,
            bridge.state() == BridgeState::Created,
    {
        HookBridge { device, state: BridgeState::Created }
    }

    /// Takes in what the driver reports and says what it is to do next.
    pub fn step(&mut self, event: BridgeEvent) -> (action: BridgeAction)
        ensures
            final(self).device() == old(self).device(),
            (final(self).state(), action) == bridge_next(
                old(self).device(),
                old(self).state(),
                event,
            ),
    {
        match self.state {
            BridgeState::Created => {
                self.state = BridgeState::Installing;
                BridgeAction::InstallHook
            },
            BridgeState::Installing => match event {
                BridgeEvent::Installed => {
                    self.state = BridgeState::Holding;
                    BridgeAction::Sleep(KEEPALIVE_MILLIS)
                },
                BridgeEvent::Refused(reason) => {
                    self.state = BridgeState::Holding;
                    BridgeAction::Report(HookInstallFailed { device: self.device, reason })
                },
                _ => BridgeAction::Sleep(KEEPALIVE_MILLIS),
            },
            BridgeState::Holding => BridgeAction::Sleep(KEEPALIVE_MILLIS),
        }
    }
}

/// From `Installing` or `Holding` on, a bridge never asks for the hook again,
/// and it never leaves `Holding`: there every answer is a nap.
pub proof fn lemma_bridge_settles(device: HookDevice, state: BridgeState, events: Seq<BridgeEvent>)
    requires
        state != BridgeState::Created,
    ensures
        bridge_run(device, state, events).len() == events.len(),
        forall|i: int|
            0 <= i < events.len() ==> #[trigger] bridge_run(device, state, events)[i]
                != BridgeAction::InstallHook,
        state == BridgeState::Holding ==> forall|i: int|
            0 <= i < events.len() ==> #[trigger] bridge_run(device, state, events)[i]
                == BridgeAction::Sleep(KEEPALIVE_MILLIS),
    decreases events.len(),
{
    if events.len() > 0 {
        let (next, action) = bridge_next(device, state, events.first());
        let rest = events.drop_first();
        lemma_bridge_settles(device, next, rest);
        let run = bridge_run(device, state, events);
        assert forall|i: int| 0 <= i < events.len() implies #[trigger] run[i]
            != BridgeAction::InstallHook by {
            if i > 0 {
                assert(run[i] == bridge_run(device, next, rest)[i - 1]);
            }
        }
        if state == BridgeState::Holding {
            assert forall|i: int| 0 <= i < events.len() implies #[trigger] run[i]
                == BridgeAction::Sleep(KEEPALIVE_MILLIS) by {
                if i > 0 {
                    assert(run[i] == bridge_run(device, next, rest)[i - 1]);
                }
            }
        }
    }
}

/// A hook is installed exactly once: a new bridge asks for it on its first
/// event and never again, whatever is reported to it.
pub proof fn lemma_hook_installed_once(device: HookDevice, events: Seq<BridgeEvent>)
    requires
        events.len() > 0,
    ensures
        bridge_run(device, BridgeState::Created, events).len() == events.len(),
        bridge_run(device, BridgeState::Created, events)[0] == BridgeAction::InstallHook,
        forall|i: int|
            1 <= i < events.len() ==> #[trigger] bridge_run(device, BridgeState::Created, events)[i]
                != BridgeAction::InstallHook,
{
    let rest = events.drop_first();
    lemma_bridge_settles(device, BridgeState::Installing, rest);
    let run = bridge_run(device, BridgeState::Created, events);
    assert forall|i: int| 1 <= i < events.len() implies #[trigger] run[i]
        != BridgeAction::InstallHook by {
        assert(run[i] == bridge_run(device, BridgeState::Installing, rest)[i - 1]);
    }
}

/// A refused hook does not pass in silence: when the installation that a new
/// bridge asked for is refused, the very next action reports it to the host,
/// with the device and the reason, and every action after that is a nap.
pub proof fn lemma_refusal_is_reported(
    device: HookDevice,
    reason: HookFailure,
    first: BridgeEvent,
    later: Seq<BridgeEvent>,
)
    ensures
        ({
            let events = seq![first, BridgeEvent::Refused(reason)] + later;
            let run = bridge_run(device, BridgeState::Created, events);
            &&& run.len() == later.len() + 2
            &&& run[0] == BridgeAction::InstallHook
            &&& run[1] == BridgeAction::Report(HookInstallFailed { device, reason })
            &&& forall|i: int|
                2 <= i < run.len() ==> #[trigger] run[i] == BridgeAction::Sleep(KEEPALIVE_MILLIS)
        }),
{
    let events = seq![first, BridgeEvent::Refused(reason)] + later;
    let after_first = events.drop_first();
    let after_second = after_first.drop_first();
    assert(after_second =~= later);
    assert(after_first.first() == BridgeEvent::Refused(reason));
    lemma_bridge_settles(device, BridgeState::Holding, later);
    let run = bridge_run(device, BridgeState::Created, events);
    let run1 = bridge_run(device, BridgeState::Installing, after_first);
    let run2 = bridge_run(device, BridgeState::Holding, after_second);
    assert(run == seq![BridgeAction::InstallHook] + run1);
    assert(run1 == seq![BridgeAction::Report(HookInstallFailed { device, reason })] + run2);
    assert forall|i: int| 2 <= i < run.len() implies #[trigger] run[i] == BridgeAction::Sleep(
        KEEPALIVE_MILLIS,
    ) by {
        assert(run[i] == run1[i - 1]);
        assert(run1[i - 1] == run2[i - 2]);
    }
}

} // verus!
