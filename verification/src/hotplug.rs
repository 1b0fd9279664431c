//! Whether a device coming or going restarts the engine.

use crate::clock::DeviceId;
use vstd::prelude::*;

verus! {

/// The two independent restart switches.
#[derive(Debug, Clone, Copy)]
pub struct HotplugConfig {
    pub restart_on_a1_disconnect: bool,
    pub restart_on_any_disconnect: bool,
}

impl Default for HotplugConfig {
    fn default() -> (r: Self)
        ensures
            !r.restart_on_a1_disconnect,
            !r.restart_on_any_disconnect,
    {
        HotplugConfig { restart_on_a1_disconnect: false, restart_on_any_disconnect: false }
    }
}

#[derive(Debug, Clone, Copy, PartialEq, Eq, Structural)]
pub enum Event {
    DeviceRemoved(DeviceId),
    DeviceAdded(DeviceId),
}

#[derive(Debug, Clone, Copy, PartialEq, Eq, Structural)]
pub enum Action {
    Restart,
    NoOp,
}

/// The event calls for a restart: a loss that one of the switches covers, or
/// the return of the main output, which no switch gates.
pub open spec fn restarts(config: HotplugConfig, a1_device: Option<DeviceId>, event: Event) -> bool {
    match event {
        Event::DeviceRemoved(id) => config.restart_on_any_disconnect || (
        config.restart_on_a1_disconnect && a1_device == Some(id)),
        Event::DeviceAdded(id) => a1_device == Some(id),
    }
}

/// `a1_device` is the configured main output, if there is one.
pub fn decide(config: &HotplugConfig, a1_device: Option<DeviceId>, event: Event) -> (r: Action)
    ensures
        r == (if restarts(*config, a1_device, event) {
            Action::Restart
        } else {
            Action::NoOp
        }),
{
    let restart: bool = match event {
        Event::DeviceRemoved(id) => {
            let is_a1: bool = match a1_device {
                Some(a1) => a1 == id,
                None => false,
            };
            config.restart_on_any_disconnect || (is_a1 && config.restart_on_a1_disconnect)
        },
        Event::DeviceAdded(id) => match a1_device {
            Some(a1) => a1 == id,
            None => false,
        },
    };
    if restart {
        Action::Restart
    } else {
        Action::NoOp
    }
}

/// With no main output configured, only the "any device" switch ever restarts
/// the engine, and no arrival does.
pub proof fn law_without_a_main_output(config: HotplugConfig, id: DeviceId)
    ensures
        restarts(config, None, Event::DeviceRemoved(id)) == config.restart_on_any_disconnect,
        !restarts(config, None, Event::DeviceAdded(id)),
{
}

/// The return of the main output restarts the engine whatever the switches
/// say.
pub proof fn law_main_output_is_always_reattached(config: HotplugConfig, id: DeviceId)
    ensures
        restarts(config, Some(id), Event::DeviceAdded(id)),
{
}

} // verus!
