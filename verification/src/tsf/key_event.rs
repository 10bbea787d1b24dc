//! Key-event decisions of the text service: whether a key is ours, and what
//! a key does to the session.
use crate::tsf::edit_session::{plan_operations, plan_spec, EditOperation};
use crate::tsf::keymap::{map_vk, map_vk_spec};
use crate::tsf::session::{
    key_action, key_step, key_uses_client, logs_key, ActionView, EngineClient, InputSession, Key,
    SessionAction,
};
use vstd::prelude::*;

verus! {

/// Result of `OnTestKeyDown`-style handling.
#[derive(Debug, Clone, Copy, PartialEq, Eq, Structural)]
pub enum KeyTestResult {
    Eat,
    Pass,
}

/// Whether the service eats a virtual key.
pub open spec fn test_key_down_spec(
    is_active: bool,
    sink_active: bool,
    is_composing: bool,
    vk: u32,
) -> KeyTestResult {
    match map_vk_spec(vk) {
        None => KeyTestResult::Pass,
        Some(key) => if !is_active || !sink_active {
            KeyTestResult::Pass
        } else {
            match key {
                Key::Char(_) => KeyTestResult::Eat,
                _ => if is_composing {
                    KeyTestResult::Eat
                } else {
                    KeyTestResult::Pass
                },
            }
        },
    }
}

/// Determines whether the service should handle a virtual key: letters while
/// active, control keys only while composing.
pub fn test_key_down(is_active: bool, sink_active: bool, is_composing: bool, vk: u32) -> (r:
    KeyTestResult)
    ensures
        r == test_key_down_spec(is_active, sink_active, is_composing, vk),
{
    let key = match map_vk(vk) {
        None => {
            return KeyTestResult::Pass;
        },
        Some(key) => key,
    };
    if !is_active || !sink_active {
        return KeyTestResult::Pass;
    }
    match key {
        Key::Char(_) => KeyTestResult::Eat,
        _ => {
            if is_composing {
                KeyTestResult::Eat
            } else {
                KeyTestResult::Pass
            }
        },
    }
}

/// Processes a key that has been accepted by `test_key_down`: the session
/// handles the mapped key and its action is planned as edit operations; an
/// unmapped key passes through and leaves the session alone.
pub fn key_down<C: EngineClient>(session: &mut InputSession<C>, vk: u32) -> (r: Vec<
    EditOperation,
>)
    requires
        old(session).wf(),
    ensures
        final(session).wf(),
        match map_vk_spec(vk) {
            None => {
                &&& final(session).state() == old(session).state()
                &&& final(session).client_value() == old(session).client_value()
                &&& r.deep_view() == plan_spec(ActionView::PassThrough)
            },
            Some(key) => {
                &&& key_step(old(session).state(), final(session).state(), key)
                &&& r.deep_view() == plan_spec(
                    key_action(old(session).state(), final(session).state(), key),
                )
                &&& !key_uses_client(old(session).state(), key) ==> final(session).client_value()
                    == old(session).client_value()
                &&& logs_key(
                    old(session).state(),
                    final(session).state(),
                    key,
                    old(session).client_value(),
                    final(session).client_value(),
                )
            },
        },
{
    match map_vk(vk) {
        None => plan_operations(SessionAction::PassThrough),
        Some(key) => plan_operations(session.handle_key_action(key)),
    }
}

} // verus!
