//! Single-instance control: the decisions of the hand-over to an already
//! running viewer (named mutex, then named pipe), the text sent over the
//! pipe, and the UTF-16 encoding handed to the system calls.
use vstd::prelude::*;
use crate::text::{chars_of, push_chars};

verus! {

/// Outcome of the single-instance check.
#[derive(Debug, Clone, Copy, PartialEq, Eq, Structural)]
pub enum InstanceCheck {
    /// First instance (may rotate the logs).
    Primary,
    /// The path was handed to the running instance (exit at once).
    Forwarded,
    /// A running instance exists but the hand-over failed (must not rotate the logs).
    FallbackStart,
}

// ---------------------------------------------------------------------------
// UTF-16
// ---------------------------------------------------------------------------

/// UTF-16 code units of one character.
pub open spec fn utf16_units(c: char) -> Seq<u16> {
    let v = c as u32;
    if v < 0x10000 {
        seq![v as u16]
    } else {
        let u = (v - 0x10000) as u32;
        seq![(0xD800 + u / 0x400) as u16, (0xDC00 + u % 0x400) as u16]
    }
}

/// UTF-16 encoding of a character sequence.
pub open spec fn utf16(s: Seq<char>) -> Seq<u16>
    decreases s.len(),
{
    if s.len() == 0 {
        Seq::empty()
    } else {
        utf16(s.drop_last()) + utf16_units(s.last())
    }
}

/// `s` as NUL-terminated UTF-16, for the wide-string system calls.
pub fn to_wide(s: &str) -> (r: Vec<u16>)
    ensures
        r@ == utf16(s@).push(0u16),
{
    let cs = chars_of(s);
    let mut r: Vec<u16> = Vec::new();
    let mut i: usize = 0;
    while i < cs.len()
        invariant
            i <= cs@.len(),
            cs@ == s@,
            r@ == utf16(cs@.subrange(0, i as int)),
        decreases cs@.len() - i,
    {
        let c = cs[i];
        let v = c as u32;
        proof {
            assert(cs@.subrange(0, i + 1).drop_last() =~= cs@.subrange(0, i as int));
        }
        if v < 0x10000 {
            r.push(v as u16);
        } else {
            let u = v - 0x10000;
            r.push((0xD800 + u / 0x400) as u16);
            r.push((0xDC00 + u % 0x400) as u16);
        }
        assert(r@ =~= utf16(cs@.subrange(0, i + 1)));
        i = i + 1;
    }
    assert(cs@.subrange(0, cs@.len() as int) =~= s@);
    r.push(0);
    r
}

// ---------------------------------------------------------------------------
// The path handed over the pipe
// ---------------------------------------------------------------------------

/// The verbatim UNC prefix `\\?\UNC\`.
pub open spec fn unc_prefix() -> Seq<char> {
    seq!['\\', '\\', '?', '\\', 'U', 'N', 'C', '\\']
}

/// The verbatim prefix `\\?\`.
pub open spec fn verbatim_prefix() -> Seq<char> {
    seq!['\\', '\\', '?', '\\']
}

/// A path without its verbatim prefix: `\\?\UNC\server\share` becomes
/// `\\server\share`, `\\?\C:\...` becomes `C:\...`, other paths stay.
pub open spec fn strip_verbatim(s: Seq<char>) -> Seq<char> {
    if s.len() >= 8 && s.subrange(0, 8) == unc_prefix() {
        seq!['\\', '\\'] + s.subrange(8, s.len() as int)
    } else if s.len() >= 4 && s.subrange(0, 4) == verbatim_prefix() {
        s.subrange(4, s.len() as int)
    } else {
        s
    }
}

/// Whether `cs` starts with the characters of `p`.
fn starts_with(cs: &Vec<char>, p: &[char]) -> (r: bool)
    ensures
        r == (cs@.len() >= p@.len() && cs@.subrange(0, p@.len() as int) == p@),
{
    if cs.len() < p.len() {
        return false;
    }
    let mut i: usize = 0;
    while i < p.len()
        invariant
            i <= p@.len() <= cs@.len(),
            forall|k: int| 0 <= k < i ==> cs@[k] == p@[k],
        decreases p@.len() - i,
    {
        if cs[i] != p[i] {
            return false;
        }
        i = i + 1;
    }
    assert(cs@.subrange(0, p@.len() as int) =~= p@);
    true
}

/// The path text without its verbatim prefix.
pub fn strip_verbatim_prefix(s: &str) -> (r: String)
    ensures
        r@ == strip_verbatim(s@),
{
    let cs = chars_of(s);
    let unc = ['\\', '\\', '?', '\\', 'U', 'N', 'C', '\\'];
    let verbatim = ['\\', '\\', '?', '\\'];
    assert(unc@ == unc_prefix());
    assert(verbatim@ == verbatim_prefix());
    let mut r = String::new();
    if starts_with(&cs, unc.as_slice()) {
        push_chars(&mut r, &vec!['\\', '\\'], 0, 2);
        push_chars(&mut r, &cs, 8, cs.len());
    } else if starts_with(&cs, verbatim.as_slice()) {
        push_chars(&mut r, &cs, 4, cs.len());
    } else {
        push_chars(&mut r, &cs, 0, cs.len());
        assert(cs@.subrange(0, cs@.len() as int) =~= cs@);
    }
    assert(r@ =~= strip_verbatim(s@));
    r
}

// ---------------------------------------------------------------------------
// Hand-over decisions
// ---------------------------------------------------------------------------

/// One observed step of the hand-over to a running instance.
pub enum HandoverEvent {
    /// The named mutex was (or was not) created, and whether it existed already.
    Mutex { created: bool, already_exists: bool },
    /// Waiting for the running instance's pipe succeeded or timed out.
    PipeWait { ready: bool },
    /// Opening the pipe for writing succeeded or failed.
    PipeOpen { opened: bool },
    /// The write call's success flag, the bytes it wrote and the payload length
    /// (compared as the 32-bit length handed to the call).
    Write { ok: bool, written: u32, expected: usize },
}

/// What to do after a step of the hand-over.
#[derive(Debug, Clone, Copy, PartialEq, Eq, Structural)]
pub enum HandoverAction {
    /// Go on with the next step.
    Continue,
    /// Stop: the check has its outcome.
    Finish(InstanceCheck),
}

/// Outcome of one hand-over step: no mutex (the check is skipped) or no
/// prior mutex makes this the primary instance; a pipe that is not ready, not
/// opened or not written in full falls back to a normal start; a full write
/// means the path was forwarded.
pub open spec fn handover_step(ev: HandoverEvent) -> HandoverAction {
    match ev {
        HandoverEvent::Mutex { created, already_exists } => if !created || !already_exists {
            HandoverAction::Finish(InstanceCheck::Primary)
        } else {
            HandoverAction::Continue
        },
        HandoverEvent::PipeWait { ready } => if ready {
            HandoverAction::Continue
        } else {
            HandoverAction::Finish(InstanceCheck::FallbackStart)
        },
        HandoverEvent::PipeOpen { opened } => if opened {
            HandoverAction::Continue
        } else {
            HandoverAction::Finish(InstanceCheck::FallbackStart)
        },
        HandoverEvent::Write { ok, written, expected } => if ok && written == expected as u32 {
            HandoverAction::Finish(InstanceCheck::Forwarded)
        } else {
            HandoverAction::Finish(InstanceCheck::FallbackStart)
        },
    }
}

/// Decide the next move of the hand-over from the step just observed.
pub fn next_handover_action(ev: HandoverEvent) -> (r: HandoverAction)
    ensures
        r == handover_step(ev),
{
    match ev {
        HandoverEvent::Mutex { created, already_exists } => {
            if !created || !already_exists {
                HandoverAction::Finish(InstanceCheck::Primary)
            } else {
                HandoverAction::Continue
            }
        },
        HandoverEvent::PipeWait { ready } => {
            if ready {
                HandoverAction::Continue
            } else {
                HandoverAction::Finish(InstanceCheck::FallbackStart)
            }
        },
        HandoverEvent::PipeOpen { opened } => {
            if opened {
                HandoverAction::Continue
            } else {
                HandoverAction::Finish(InstanceCheck::FallbackStart)
            }
        },
        HandoverEvent::Write { ok, written, expected } => {
            if ok && written == expected as u32 {
                HandoverAction::Finish(InstanceCheck::Forwarded)
            } else {
                HandoverAction::Finish(InstanceCheck::FallbackStart)
            }
        },
    }
}

} // verus!
