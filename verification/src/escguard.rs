//! Esc-tail guard: reassemble an Alt+<char> that the pty split across two
//! writes (Esc first, the letter a beat later).
//!
//! Over SSH some terminals deliver Alt+D as two separate key events: a lone
//! Esc, then the trailing `d` as a plain character, so the wake key never
//! matches. The guard holds a bare Esc for [`HOLD_MS`] and merges it with a
//! following unmodified char press into a synthetic `ALT+char` event. It is a
//! pure state machine (no threads, no clock): the caller feeds it the keys it
//! reads and calls [`EscGuard::flush`] when [`HOLD_MS`] passed without one.
//!
//! Semantics of [`EscGuard::feed`]:
//! 1. idle + bare Esc (press, no modifiers) -> held, nothing emitted;
//! 2. held + unmodified char press -> emit `ALT+char` (held cleared);
//! 3. held + any other key -> emit the held Esc first, then take the current
//!    key by the same rules (a following bare Esc is held again, everything
//!    else passes straight through);
//! 4. no follow-up within [`HOLD_MS`] -> [`EscGuard::flush`] emits the Esc.

use vstd::prelude::*;

use crate::keyspec::{unmodified, Key, KeyPress};

verus! {

/// Window a lone Esc is held while waiting for a possible Alt-tail, in ms.
pub const HOLD_MS: u64 = 40;

/// Guard state: `held` is `Some` exactly while a bare Esc is being held.
#[derive(Debug)]
pub struct EscGuard {
    pub held: Option<KeyPress>,
}

/// A bare Esc key press: the Esc key, pressed, no modifier at all.
pub open spec fn bare_esc(key: KeyPress) -> bool {
    key.code == Key::Esc && key.press && unmodified(key)
}

/// The synthetic `ALT+char` a key arriving while an Esc is held merges
/// into: only an unmodified char press does.
pub open spec fn alt_of(key: KeyPress) -> Option<KeyPress> {
    match key.code {
        Key::Char(c) => if key.press && unmodified(key) {
            Some(KeyPress { code: Key::Char(c), alt: true, ctrl: false, shift: false, extra: false, press: true })
        } else {
            None
        },
        _ => None,
    }
}

/// The idle-state step: a bare Esc is held, anything else delivered.
pub open spec fn absorbed(key: KeyPress) -> (Option<KeyPress>, Seq<KeyPress>) {
    if bare_esc(key) {
        (Some(key), Seq::empty())
    } else {
        (None, seq![key])
    }
}

/// One step of the guard from `held` on `key`: what it holds afterwards and
/// the keys it delivers now, in order.
pub open spec fn fed(held: Option<KeyPress>, key: KeyPress) -> (Option<KeyPress>, Seq<KeyPress>) {
    match held {
        None => absorbed(key),
        Some(esc) => match alt_of(key) {
            Some(a) => (None, seq![a]),
            None => (absorbed(key).0, seq![esc] + absorbed(key).1),
        },
    }
}

/// Whether `key` is a bare Esc press.
fn is_bare_esc(key: &KeyPress) -> (r: bool)
    ensures
        r == bare_esc(*key),
{
    key.code == Key::Esc && key.press && !key.alt && !key.ctrl && !key.shift && !key.extra
}

/// The `ALT+char` merge of a key arriving while an Esc is held.
fn synthesize_alt(key: &KeyPress) -> (r: Option<KeyPress>)
    ensures
        r == alt_of(*key),
{
    match key.code {
        Key::Char(c) => {
            if key.press && !key.alt && !key.ctrl && !key.shift && !key.extra {
                Some(KeyPress { code: Key::Char(c), alt: true, ctrl: false, shift: false, extra: false, press: true })
            } else {
                None
            }
        },
        _ => None,
    }
}

impl EscGuard {
    /// An idle guard.
    pub fn new() -> (g: EscGuard)
        ensures
            g.held is None,
    {
        EscGuard { held: None }
    }

    /// True while a lone Esc is being held: the caller should wait up to
    /// [`HOLD_MS`] for the next key, then [`EscGuard::flush`].
    pub fn is_holding(&self) -> (r: bool)
        ensures
            r == self.held is Some,
    {
        self.held.is_some()
    }

    /// Feed one key event; returns the events to deliver now, in order. An
    /// empty result means the key was held (a bare Esc).
    pub fn feed(&mut self, key: KeyPress) -> (out: Vec<KeyPress>)
        ensures
            (final(self).held, out@) == fed(old(self).held, key),
    {
        match self.held.take() {
            None => self.absorb(key),
            Some(esc) => match synthesize_alt(&key) {
                Some(alt_key) => vec![alt_key],
                None => {
                    let mut out = vec![esc];
                    let mut rest = self.absorb(key);
                    out.append(&mut rest);
                    out
                },
            },
        }
    }

    /// Timeout path: release the held Esc (if any) as a real Esc press.
    pub fn flush(&mut self) -> (r: Option<KeyPress>)
        ensures
            r == old(self).held,
            final(self).held is None,
    {
        self.held.take()
    }

    /// Idle-state transition: hold a bare Esc, pass everything else through.
    fn absorb(&mut self, key: KeyPress) -> (out: Vec<KeyPress>)
        requires
            old(self).held is None,
        ensures
            (final(self).held, out@) == absorbed(key),
    {
        if is_bare_esc(&key) {
            self.held = Some(key);
            Vec::new()
        } else {
            vec![key]
        }
    }
}

/// Every key fed is accounted for: a fed key that is not a bare Esc leaves
/// the guard idle, and a fed step delivers at most two keys, the held Esc
/// coming first whenever it is not merged.
pub proof fn lemma_feed_accounts(held: Option<KeyPress>, key: KeyPress)
    ensures
        !bare_esc(key) ==> fed(held, key).0 is None,
        bare_esc(key) && held is None ==> fed(held, key) == (Some(key), Seq::<KeyPress>::empty()),
        fed(held, key).1.len() <= 2,
        alt_of(key) is None ==> (held matches Some(e) ==> fed(held, key).1[0] == e),
        held is None && !bare_esc(key) ==> fed(held, key).1 == seq![key],
{
}

} // verus!
