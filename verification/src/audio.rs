//! Per-category playback slots: each audio source category holds at most one
//! live engine handle, and replacing the occupant always releases the
//! previous handle first — an explicit hand-off, never a silent leak.
//!
//! The output device itself is acquired lazily by the surrounding shell (it
//! may require a prior user interaction); its acquisition outcome is folded
//! in through [`Audio::ensure_initialized`], and an acquisition failure is
//! fatal for playback and surfaced on every call, never swallowed.

use vstd::prelude::*;

use crate::errors::AudioError;

verus! {

/// Different sound sources.
#[derive(Clone, Copy, PartialEq, Eq, Structural, Hash, Debug)]
pub enum Source {
    BGM,
    BGS,
    ME,
    SE,
}

/// Whether a category plays its stream in a loop (ambient categories) or
/// once (transient categories).
pub open spec fn is_looping_source(s: Source) -> bool {
    match s {
        Source::BGM => true,
        Source::BGS => true,
        Source::ME => false,
        Source::SE => false,
    }
}

/// Whether the output device was acquired, and with what outcome.
#[derive(Clone, Copy, PartialEq, Eq, Structural, Debug)]
pub enum DeviceState {
    /// Not acquired yet: acquisition waits for the first play request.
    Unacquired,
    /// Acquired and usable.
    Acquired,
    /// Acquisition failed; playback is refused from then on.
    Failed,
}

/// One live engine handle and its playback parameters.
#[derive(Clone, Copy, PartialEq, Eq, Structural, Debug)]
pub struct SinkState {
    /// The handle's number; handles are never reused.
    pub handle: u64,
    /// Playback volume, in engine units of percent.
    pub volume: u8,
    /// Playback speed, in engine units of percent.
    pub pitch: u8,
    /// Whether the stream loops.
    pub looping: bool,
}

/// The playback manager: one slot per source category, a ledger of released
/// handles, and the device acquisition state.
#[derive(Debug)]
pub struct Audio {
    pub device: DeviceState,
    /// The next handle number to hand out; never reused.
    pub next_handle: u64,
    pub bgm: Option<SinkState>,
    pub bgs: Option<SinkState>,
    pub me: Option<SinkState>,
    pub se: Option<SinkState>,
    /// Every handle that was ever stopped or replaced, in release order.
    pub stopped: Vec<u64>,
}

impl Audio {
    /// The slot occupant for a category.
    pub open spec fn slot_of(self, s: Source) -> Option<SinkState> {
        match s {
            Source::BGM => self.bgm,
            Source::BGS => self.bgs,
            Source::ME => self.me,
            Source::SE => self.se,
        }
    }

    /// The slot holds a sink with handle `h`.
    pub open spec fn sink_has(o: Option<SinkState>, h: u64) -> bool {
        match o {
            Some(k) => k.handle == h,
            None => false,
        }
    }

    /// Handle `h` currently occupies some slot.
    pub open spec fn live(self, h: u64) -> bool {
        ||| Audio::sink_has(self.bgm, h)
        ||| Audio::sink_has(self.bgs, h)
        ||| Audio::sink_has(self.me, h)
        ||| Audio::sink_has(self.se, h)
    }

    /// Handle `h` was released at some point.
    pub open spec fn was_stopped_handle(self, h: u64) -> bool {
        self.stopped@.contains(h)
    }

    /// The slot is empty, or its handle is below the counter and not in the
    /// released ledger.
    pub open spec fn sink_ok(self, o: Option<SinkState>) -> bool {
        match o {
            Some(k) => k.handle < self.next_handle && !self.stopped@.contains(k.handle),
            None => true,
        }
    }

    /// The two slots hold different handles, unless one is empty.
    pub open spec fn distinct_sinks(a: Option<SinkState>, b: Option<SinkState>) -> bool {
        match (a, b) {
            (Some(x), Some(y)) => x.handle != y.handle,
            _ => true,
        }
    }

    /// Live handles are below the counter, pairwise distinct, and never in
    /// the released ledger; released handles are below the counter too.
    pub open spec fn wf(self) -> bool {
        &&& self.sink_ok(self.bgm)
        &&& self.sink_ok(self.bgs)
        &&& self.sink_ok(self.me)
        &&& self.sink_ok(self.se)
        &&& Audio::distinct_sinks(self.bgm, self.bgs)
        &&& Audio::distinct_sinks(self.bgm, self.me)
        &&& Audio::distinct_sinks(self.bgm, self.se)
        &&& Audio::distinct_sinks(self.bgs, self.me)
        &&& Audio::distinct_sinks(self.bgs, self.se)
        &&& Audio::distinct_sinks(self.me, self.se)
        &&& forall|i: int| 0 <= i < self.stopped@.len() ==> #[trigger] self.stopped@[i] < self.next_handle
    }

    /// A manager with no device, no live handles and an empty ledger.
    pub fn new() -> (r: Audio)
        ensures
            r.wf(),
            r.device == DeviceState::Unacquired,
            r.next_handle == 0,
            r.bgm is None,
            r.bgs is None,
            r.me is None,
            r.se is None,
            r.stopped@.len() == 0,
    {
        Audio {
            device: DeviceState::Unacquired,
            next_handle: 0,
            bgm: None,
            bgs: None,
            me: None,
            se: None,
            stopped: Vec::new(),
        }
    }

    /// Whether the first play request must acquire the output device before
    /// calling [`Audio::ensure_initialized`].
    pub fn needs_device(&self) -> (r: bool)
        ensures
            r == (self.device == DeviceState::Unacquired),
    {
        match self.device {
            DeviceState::Unacquired => true,
            _ => false,
        }
    }

    /// Folds the shell's device acquisition outcome in.  Idempotent once
    /// acquired; a failure is fatal and reported on this and every later
    /// call.
    pub fn ensure_initialized(&mut self, acquired: bool) -> (r: Result<(), AudioError>)
        requires
            old(self).wf(),
        ensures
            final(self).wf(),
            final(self).next_handle == old(self).next_handle,
            final(self).stopped == old(self).stopped,
            forall|s: Source| #[trigger] final(self).slot_of(s) == old(self).slot_of(s),
            old(self).device == DeviceState::Acquired ==> final(self).device
                == DeviceState::Acquired && r is Ok,
            old(self).device == DeviceState::Failed ==> final(self).device == DeviceState::Failed
                && r == Err::<(), AudioError>(AudioError::BackendInit),
            old(self).device == DeviceState::Unacquired ==> final(self).device == (if acquired {
                DeviceState::Acquired
            } else {
                DeviceState::Failed
            }) && r == (if acquired {
                Ok::<(), AudioError>(())
            } else {
                Err::<(), AudioError>(AudioError::BackendInit)
            }),
    {
        match self.device {
            DeviceState::Acquired => Ok(()),
            DeviceState::Failed => Err(AudioError::BackendInit),
            DeviceState::Unacquired => {
                if acquired {
                    self.device = DeviceState::Acquired;
                    Ok(())
                } else {
                    self.device = DeviceState::Failed;
                    Err(AudioError::BackendInit)
                }
            },
        }
    }

    /// Plays `bytes` on `source`'s slot: the stream is decoded with the
    /// category's strategy (looping for ambient categories, one-shot
    /// otherwise), and whichever handle occupied the slot is stopped and
    /// recorded in the ledger before the new handle is installed.  Fails
    /// with `BackendInit` while the device is not acquired, and with
    /// `Decode` on an empty byte stream — in both cases nothing changes.
    pub fn play(&mut self, source: Source, bytes: &Vec<u8>, volume: u8, pitch: u8) -> (r: Result<
        u64,
        AudioError,
    >)
        requires
            old(self).wf(),
            old(self).next_handle < u64::MAX,
        ensures
            final(self).wf(),
            old(self).device != DeviceState::Acquired ==> r == Err::<u64, AudioError>(
                AudioError::BackendInit,
            ) && *final(self) == *old(self),
            old(self).device == DeviceState::Acquired && bytes@.len() == 0 ==> r == Err::<
                u64,
                AudioError,
            >(AudioError::Decode) && *final(self) == *old(self),
            old(self).device == DeviceState::Acquired && bytes@.len() > 0 ==> {
                let h = old(self).next_handle;
                &&& r == Ok::<u64, AudioError>(h)
                &&& final(self).slot_of(source) == Some(
                    SinkState { handle: h, volume, pitch, looping: is_looping_source(source) },
                )
                &&& final(self).next_handle == old(self).next_handle + 1
                &&& final(self).device == DeviceState::Acquired
                &&& (match old(self).slot_of(source) {
                    Some(prev) => final(self).stopped@ == old(self).stopped@.push(prev.handle)
                        && !final(self).live(prev.handle) && final(self).was_stopped_handle(
                        prev.handle,
                    ),
                    None => final(self).stopped@ == old(self).stopped@,
                })
                &&& forall|s2: Source|
                    s2 != source ==> #[trigger] final(self).slot_of(s2) == old(self).slot_of(s2)
                &&& final(self).live(h)
                &&& !final(self).was_stopped_handle(h)
            },
    {
        match self.device {
            DeviceState::Acquired => {},
            _ => {
                return Err(AudioError::BackendInit);
            },
        }
        if bytes.len() == 0 {
            return Err(AudioError::Decode);
        }
        let h = self.next_handle;
        self.next_handle = h + 1;
        let looping = match source {
            Source::BGM => true,
            Source::BGS => true,
            Source::ME => false,
            Source::SE => false,
        };
        let prev = match source {
            Source::BGM => self.bgm,
            Source::BGS => self.bgs,
            Source::ME => self.me,
            Source::SE => self.se,
        };
        if let Some(p) = prev {
            self.stopped.push(p.handle);
        }
        let sink = SinkState { handle: h, volume, pitch, looping };
        match source {
            Source::BGM => self.bgm = Some(sink),
            Source::BGS => self.bgs = Some(sink),
            Source::ME => self.me = Some(sink),
            Source::SE => self.se = Some(sink),
        }
        proof {
            match old(self).slot_of(source) {
                Some(p) => {
                    assert(self.stopped@ == old(self).stopped@.push(p.handle));
                    assert(self.stopped@[self.stopped@.len() - 1] == p.handle);
                    assert(self.stopped@.contains(p.handle));
                },
                None => {},
            }
            assert forall|i: int| 0 <= i < self.stopped@.len() implies self.stopped@[i] != h by {
                if i < old(self).stopped@.len() {
                    assert(old(self).stopped@[i] < h);
                }
            }
            assert(!self.stopped@.contains(h));
        }
        Ok(h)
    }

    /// The occupant of `source`'s slot, if any.
    pub fn slot(&self, source: Source) -> (r: Option<SinkState>)
        ensures
            r == self.slot_of(source),
    {
        match source {
            Source::BGM => self.bgm,
            Source::BGS => self.bgs,
            Source::ME => self.me,
            Source::SE => self.se,
        }
    }

    /// Whether `handle` currently occupies some slot.
    pub fn is_live(&self, handle: u64) -> (r: bool)
        ensures
            r == self.live(handle),
    {
        let mut found = false;
        if let Some(k) = self.slot(Source::BGM) {
            if k.handle == handle {
                found = true;
            }
        }
        if let Some(k) = self.slot(Source::BGS) {
            if k.handle == handle {
                found = true;
            }
        }
        if let Some(k) = self.slot(Source::ME) {
            if k.handle == handle {
                found = true;
            }
        }
        if let Some(k) = self.slot(Source::SE) {
            if k.handle == handle {
                found = true;
            }
        }
        found
    }

    /// Whether `handle` was stopped or replaced at some point.
    pub fn was_stopped(&self, handle: u64) -> (r: bool)
        ensures
            r == self.was_stopped_handle(handle),
    {
        let n = self.stopped.len();
        let mut i: usize = 0;
        while i < n
            invariant
                0 <= i <= n,
                n == self.stopped@.len(),
                forall|j: int| 0 <= j < i ==> self.stopped@[j] != handle,
            decreases n - i,
        {
            if self.stopped[i] == handle {
                proof {
                    assert(self.stopped@.contains(handle));
                }
                return true;
            }
            i += 1;
        }
        proof {
            assert(!self.stopped@.contains(handle));
        }
        false
    }

    /// Sets the occupant's volume in place, without interrupting playback;
    /// an empty slot is left alone.
    pub fn set_volume(&mut self, source: Source, volume: u8)
        requires
            old(self).wf(),
        ensures
            final(self).wf(),
            final(self).device == old(self).device,
            final(self).next_handle == old(self).next_handle,
            final(self).stopped == old(self).stopped,
            forall|s2: Source|
                s2 != source ==> #[trigger] final(self).slot_of(s2) == old(self).slot_of(s2),
            match old(self).slot_of(source) {
                Some(k) => final(self).slot_of(source) == Some(SinkState { volume, ..k }),
                None => final(self).slot_of(source) is None,
            },
    {
        let slot = match source {
            Source::BGM => &mut self.bgm,
            Source::BGS => &mut self.bgs,
            Source::ME => &mut self.me,
            Source::SE => &mut self.se,
        };
        match slot {
            Some(k) => {
                k.volume = volume;
            },
            None => {},
        }
    }

    /// Sets the occupant's playback speed in place, without interrupting
    /// playback; an empty slot is left alone.
    pub fn set_pitch(&mut self, source: Source, pitch: u8)
        requires
            old(self).wf(),
        ensures
            final(self).wf(),
            final(self).device == old(self).device,
            final(self).next_handle == old(self).next_handle,
            final(self).stopped == old(self).stopped,
            forall|s2: Source|
                s2 != source ==> #[trigger] final(self).slot_of(s2) == old(self).slot_of(s2),
            match old(self).slot_of(source) {
                Some(k) => final(self).slot_of(source) == Some(SinkState { pitch, ..k }),
                None => final(self).slot_of(source) is None,
            },
    {
        let slot = match source {
            Source::BGM => &mut self.bgm,
            Source::BGS => &mut self.bgs,
            Source::ME => &mut self.me,
            Source::SE => &mut self.se,
        };
        match slot {
            Some(k) => {
                k.pitch = pitch;
            },
            None => {},
        }
    }

    /// Releases the occupant of `source`'s slot into the ledger; idempotent,
    /// since an empty slot is left alone.
    pub fn stop(&mut self, source: Source)
        requires
            old(self).wf(),
        ensures
            final(self).wf(),
            final(self).device == old(self).device,
            final(self).next_handle == old(self).next_handle,
            final(self).slot_of(source) is None,
            forall|s2: Source|
                s2 != source ==> #[trigger] final(self).slot_of(s2) == old(self).slot_of(s2),
            match old(self).slot_of(source) {
                Some(k) => final(self).stopped@ == old(self).stopped@.push(k.handle)
                    && !final(self).live(k.handle) && final(self).was_stopped_handle(k.handle),
                None => *final(self) == *old(self),
            },
    {
        let prev = match source {
            Source::BGM => self.bgm,
            Source::BGS => self.bgs,
            Source::ME => self.me,
            Source::SE => self.se,
        };
        match prev {
            None => {},
            Some(p) => {
                match source {
                    Source::BGM => self.bgm = None,
                    Source::BGS => self.bgs = None,
                    Source::ME => self.me = None,
                    Source::SE => self.se = None,
                }
                self.stopped.push(p.handle);
                proof {
                    assert(self.stopped@[self.stopped@.len() - 1] == p.handle);
                    assert(self.stopped@.contains(p.handle));
                }
            },
        }
    }
}

impl Default for Audio {
    /// Same as [`Audio::new`]: no device, no live handles, empty ledger.
    fn default() -> (r: Audio)
        ensures
            r.wf(),
            r.device == DeviceState::Unacquired,
            r.next_handle == 0,
            r.bgm is None,
            r.bgs is None,
            r.me is None,
            r.se is None,
            r.stopped@.len() == 0,
    {
        Audio::new()
    }
}

} // verus!
