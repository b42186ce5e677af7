//! Registration of the process-global hotkey: which system calls to make, and what to release when
//! one of them fails or the registration ends.
//!
//! A registration holds the boxed callback, then an event handler that runs it, then the hotkey
//! itself; each is acquired after the one before and released before it.

use vstd::prelude::*;

use crate::text::{signed_decimal, signed_decimal_text};

verus! {

/// Why a hotkey could not be registered.
#[derive(Debug, Clone, Copy, PartialEq, Eq, Structural)]
pub enum HotkeyError {
    /// `RegisterEventHotKey` (or handler install) returned a non-zero `OSStatus`.
    Register(i32),
}

impl HotkeyError {
    /// The message for the log.
    pub fn message(&self) -> (text: String)
        ensures
            text@ == "RegisterEventHotKey failed: OSStatus "@ + signed_decimal(self->0 as int),
    {
        match self {
            HotkeyError::Register(code) => {
                let mut text = "RegisterEventHotKey failed: OSStatus ".to_owned();
                text.append(signed_decimal_text(*code).as_str());
                text
            },
        }
    }
}

/// Something that a registration holds and has to give back.
#[derive(Debug, Clone, Copy, PartialEq, Eq, Structural)]
pub enum Held {
    /// The boxed callback.
    Callback,
    /// The event handler that runs the callback.
    Handler,
    /// The registered hotkey.
    Hotkey,
}

/// How far a registration has come.
#[derive(Debug, Clone, Copy, PartialEq, Eq, Structural)]
pub enum Stage {
    /// The callback is boxed; the event handler is to be installed.
    InstallHandler,
    /// The event handler is installed; the hotkey is to be registered.
    RegisterHotkey,
    /// The hotkey is registered.
    Registered,
    /// A call failed, and nothing is held any more.
    Failed(HotkeyError),
}

impl Stage {
    /// What is held at this stage, in the order in which it was acquired.
    pub open spec fn held(self) -> Seq<Held> {
        match self {
            Stage::InstallHandler => seq![Held::Callback],
            Stage::RegisterHotkey => seq![Held::Callback, Held::Handler],
            Stage::Registered => seq![Held::Callback, Held::Handler, Held::Hotkey],
            Stage::Failed(_) => Seq::empty(),
        }
    }

    /// Whether the stage waits for the outcome of a system call.
    pub open spec fn is_pending(self) -> bool {
        self is InstallHandler || self is RegisterHotkey
    }

    /// The stage once the pending call has returned `status`.
    pub open spec fn after(self, status: i32) -> Stage {
        if status != 0 {
            Stage::Failed(HotkeyError::Register(status))
        } else if self is InstallHandler {
            Stage::RegisterHotkey
        } else {
            Stage::Registered
        }
    }

    /// Takes the status that the pending call returned: moves on where it is zero, else fails with
    /// it. Returns what is to be released now, in this order.
    pub fn advance(&mut self, status: i32) -> (release: Vec<Held>)
        requires
            old(self).is_pending(),
        ensures
            *final(self) == old(self).after(status),
            status == 0 ==> release@.len() == 0,
            status != 0 ==> release@ == old(self).held().reverse(),
    {
        let mut release: Vec<Held> = Vec::new();
        let stage = *self;
        if status != 0 {
            match stage {
                Stage::RegisterHotkey => {
                    release.push(Held::Handler);
                },
                _ => {},
            }
            release.push(Held::Callback);
            *self = Stage::Failed(HotkeyError::Register(status));
        } else {
            *self =
            match stage {
                Stage::InstallHandler => Stage::RegisterHotkey,
                _ => Stage::Registered,
            };
        }
        assert(status != 0 ==> release@ =~= stage.held().reverse());
        release
    }
}

/// What the end of a registration releases, in this order: the parts that are there, the latest
/// acquired first.
pub fn teardown(hotkey: bool, handler: bool, callback: bool) -> (release: Vec<Held>)
    ensures
        release@ == (if hotkey {
            seq![Held::Hotkey]
        } else {
            Seq::empty()
        }) + (if handler {
            seq![Held::Handler]
        } else {
            Seq::empty()
        }) + (if callback {
            seq![Held::Callback]
        } else {
            Seq::empty()
        }),
        hotkey && handler && callback ==> release@ == Stage::Registered.held().reverse(),
{
    let mut release: Vec<Held> = Vec::new();
    if hotkey {
        release.push(Held::Hotkey);
    }
    if handler {
        release.push(Held::Handler);
    }
    if callback {
        release.push(Held::Callback);
    }
    assert(hotkey && handler && callback ==> release@ =~= Stage::Registered.held().reverse());
    release
}

/// A registration leaks nothing and releases nothing twice: a call that succeeds adds one thing to
/// what is held, and after a call that fails nothing is held, everything that was having been
/// released.
pub proof fn lemma_nothing_leaks(stage: Stage, status: i32)
    requires
        stage.is_pending(),
    ensures
        status == 0 ==> stage.after(status).held().drop_last() == stage.held(),
        status != 0 ==> stage.after(status).held().len() == 0,
        stage.held().no_duplicates(),
        stage.after(status).held().no_duplicates(),
{
    if status == 0 {
        assert(stage.after(status).held().drop_last() =~= stage.held());
    }
}

/// A registration that goes well takes two calls and then holds the callback, the handler and the
/// hotkey, each acquired after the one before; a call that fails ends it with the status of that call.
pub proof fn lemma_registration_takes_two_calls(status: i32)
    ensures
        Stage::InstallHandler.after(0) == Stage::RegisterHotkey,
        Stage::RegisterHotkey.after(0) == Stage::Registered,
        Stage::InstallHandler.held() == seq![Held::Callback],
        Stage::Registered.held() == seq![Held::Callback, Held::Handler, Held::Hotkey],
        status != 0 ==> Stage::InstallHandler.after(status) == Stage::Failed(
            HotkeyError::Register(status),
        ),
        status != 0 ==> Stage::RegisterHotkey.after(status) == Stage::Failed(
            HotkeyError::Register(status),
        ),
{
}

} // verus!
