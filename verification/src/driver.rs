//! The output port: what to hand to the device driver for a message, what a driver
//! status means for a send, and which long messages are still with the driver.
//!
//! The port never touches the device. The caller makes each driver call and reports
//! the status word that came back; the port answers with the next step and keeps the
//! list of long messages in flight.

use vstd::prelude::*;
use vstd::slice::{slice_subrange, slice_to_vec};
use crate::inflight::{lemma_released_positions, lemma_retained_gap, lemma_unreleased_survives};
use crate::inflight::{released_at, released_positions, retained, retained_from, Completion};

verus! {

/// Driver status: the call succeeded.
pub const MMSYSERR_NOERROR: u32 = 0;

/// Driver status: the device identifier is out of range.
pub const MMSYSERR_BADDEVICEID: u32 = 2;

/// Driver status: the buffer is still in the device's queue.
pub const MIDIERR_STILLPLAYING: u32 = 65;

/// Driver status: the device is busy, the call is to be made again.
pub const MIDIERR_NOTREADY: u32 = 67;

/// Header flag: the driver is finished with the buffer.
pub const MHDR_DONE: u32 = 1;

/// The number of UTF-16 units in the name field of a device's capabilities.
pub const MAXPNAMELEN: usize = 32;

/// Why a port operation failed.
#[derive(Clone, Copy, Debug, PartialEq, Eq, Structural)]
pub enum PortError {
    /// The device number is out of range.
    BadDeviceId,
    /// The driver returned this status, which is neither success nor "busy".
    DeviceError(u32),
}

/// A long message together with the storage that the driver reads it from.
///
/// The bytes are fixed when the request is made; nothing in this library changes
/// or frees them while the request is in a port's in-flight list.
#[derive(Debug, PartialEq, Eq)]
pub struct InflightRequest {
    message: Vec<u8>,
}

impl View for InflightRequest {
    type V = Seq<u8>;

    closed spec fn view(&self) -> Seq<u8> {
        self.message@
    }
}

impl InflightRequest {
    /// The bytes of the message, where the driver reads them.
    pub fn message(&self) -> (bytes: &Vec<u8>)
        ensures
            bytes@ == self@,
    {
        &self.message
    }
}

/// What the caller has to do with a message handed to [`WinMidiPort::send`].
#[derive(Debug, PartialEq, Eq)]
pub enum SendPlan {
    /// The message was empty: nothing is sent, the caller only warns.
    Nothing,
    /// Issue one short-message call with this word.
    Short(u32),
    /// Prepare a header over this request and submit it as a long message.
    Long(InflightRequest),
}

/// How a short-message call ended.
#[derive(Clone, Copy, Debug, PartialEq, Eq, Structural)]
pub enum ShortStep {
    /// The device was busy: make the same call again.
    Retry,
    /// The message was sent.
    Sent,
    /// The call failed for good.
    Failed(PortError),
}

/// How the submission of a long message ended.
#[derive(Debug, PartialEq, Eq)]
pub enum LongStep {
    /// The device was busy: submit the request, handed back here, again.
    Retry(InflightRequest),
    /// The driver took the request; the port now holds it in flight.
    Submitted,
    /// The submission failed for good; the request is gone.
    Failed(PortError),
}

/// The byte at `index`, or zero past the end.
pub open spec fn byte_or_zero(bytes: Seq<u8>, index: int) -> int {
    if 0 <= index < bytes.len() {
        bytes[index] as int
    } else {
        0
    }
}

/// The word that carries a short message: byte 0 is the least significant byte,
/// byte 1 the next, byte 2 the third; the rest of the word is zero.
pub open spec fn packed(bytes: Seq<u8>) -> int {
    byte_or_zero(bytes, 0) + 256 * byte_or_zero(bytes, 1) + 65536 * byte_or_zero(bytes, 2)
}

/// What [`WinMidiPort::send`] answers for a message.
pub open spec fn planned(message: Seq<u8>, plan: SendPlan) -> bool {
    if message.len() == 0 {
        plan == SendPlan::Nothing
    } else if message.len() <= 3 {
        plan == SendPlan::Short(packed(message) as u32)
    } else {
        plan matches SendPlan::Long(request) && request@ == message
    }
}

/// The step that follows a short-message call that returned `status`.
pub open spec fn short_step(status: u32) -> ShortStep {
    if status == MIDIERR_NOTREADY {
        ShortStep::Retry
    } else if status == MMSYSERR_NOERROR {
        ShortStep::Sent
    } else {
        ShortStep::Failed(PortError::DeviceError(status))
    }
}

/// The error that a failing status of the open call, or of a query by device number,
/// stands for.
pub open spec fn status_error(status: u32) -> PortError {
    if status == MMSYSERR_BADDEVICEID {
        PortError::BadDeviceId
    } else {
        PortError::DeviceError(status)
    }
}

/// The text that `String::from_utf16_lossy` decodes from `units`.
pub uninterp spec fn utf16_lossy(units: Seq<u16>) -> Seq<char>;

/// Decodes UTF-16 with `String::from_utf16_lossy`: a unit that is no part of a
/// well-formed pair comes out as U+FFFD. The result depends on the units alone.
#[verifier::external_body]
fn from_utf16_lossy(units: &[u16]) -> (text: String)
    ensures
        text@ == utf16_lossy(units@),
{
    String::from_utf16_lossy(units)
}

/// The place of the first zero in `units`, or their number if none is zero.
pub open spec fn first_zero(units: Seq<u16>) -> int
    decreases units.len(),
{
    if units.len() == 0 || units[0] == 0 {
        0
    } else {
        1 + first_zero(units.drop_first())
    }
}

/// How many units of a name field hold the name: those before the first zero, or,
/// in a field without a zero, all but the last.
pub open spec fn name_length(units: Seq<u16>) -> int {
    if first_zero(units) < units.len() {
        first_zero(units)
    } else {
        units.len() - 1
    }
}

/// Where the first `from` units hold no zero, the first zero is found behind them.
proof fn lemma_first_zero_skips(units: Seq<u16>, from: int)
    requires
        0 <= from <= units.len(),
        forall|k: int| 0 <= k < from ==> units[k] != 0,
    ensures
        first_zero(units) == from + first_zero(units.skip(from)),
    decreases from,
{
    if from > 0 {
        lemma_first_zero_skips(units.drop_first(), from - 1);
        assert(units.drop_first().skip(from - 1) =~= units.skip(from));
    } else {
        assert(units.skip(0) =~= units);
    }
}

/// The General MIDI "system on" message.
pub open spec fn gm_system_on() -> Seq<u8> {
    seq![0xF0u8, 0x7Eu8, 0x7Fu8, 0x09u8, 0x01u8, 0xF7u8]
}

/// The Roland GS reset message.
pub open spec fn gs_reset() -> Seq<u8> {
    seq![0xF0u8, 0x41u8, 0x10u8, 0x42u8, 0x12u8, 0x40u8, 0x00u8, 0x7Fu8, 0x00u8, 0x41u8, 0xF7u8]
}

/// Which of the two teardown calls failed, each with the status it returned.
#[derive(Clone, Copy, Debug, PartialEq, Eq, Structural)]
pub struct Teardown {
    /// The status of the driver's reset call, if it was not success.
    pub reset_failure: Option<u32>,
    /// The status of the driver's close call, if it was not success.
    pub close_failure: Option<u32>,
}

/// The failure that a status of a teardown call stands for.
pub open spec fn failure_of(status: u32) -> Option<u32> {
    if status == MMSYSERR_NOERROR {
        None
    } else {
        Some(status)
    }
}

/// The long messages that the driver has not yet released, oldest first.
#[derive(Debug)]
pub struct WinMidiPort {
    inflight: Vec<InflightRequest>,
}

impl WinMidiPort {
    /// The requests in flight, in the order of their submission.
    pub closed spec fn inflight(&self) -> Seq<InflightRequest> {
        self.inflight@
    }

    /// Makes the port from the status of the driver's open call.
    ///
    /// The port exists exactly when the driver reported success, and then nothing
    /// is in flight.
    pub fn connect(status: u32) -> (opened: Result<Self, PortError>)
        ensures
            match opened {
                Ok(port) => status == MMSYSERR_NOERROR && port.inflight().len() == 0,
                Err(e) => status != MMSYSERR_NOERROR && e == status_error(status),
            },
    {
        if status == MMSYSERR_NOERROR {
            Ok(Self { inflight: Vec::new() })
        } else if status == MMSYSERR_BADDEVICEID {
            Err(PortError::BadDeviceId)
        } else {
            Err(PortError::DeviceError(status))
        }
    }

    /// Reads the answer to a query for a device's capabilities: the status of the
    /// call and the name field that it filled.
    ///
    /// On success the name is the text before the field's first zero, decoded from
    /// UTF-16; a field without a zero gives all but its last unit.
    pub fn name(status: u32, raw_name: &[u16; 32]) -> (named: Result<String, PortError>)
        ensures
            match named {
                Ok(text) => status == MMSYSERR_NOERROR && text@ == utf16_lossy(
                    raw_name@.take(name_length(raw_name@)),
                ),
                Err(e) => status != MMSYSERR_NOERROR && e == status_error(status),
            },
    {
        if status == MMSYSERR_BADDEVICEID {
            return Err(PortError::BadDeviceId);
        } else if status != MMSYSERR_NOERROR {
            return Err(PortError::DeviceError(status));
        }
        let mut len: usize = 0;
        while len < MAXPNAMELEN && raw_name[len] != 0
            invariant
                len <= MAXPNAMELEN,
                raw_name@.len() == MAXPNAMELEN,
                forall|k: int| 0 <= k < len ==> raw_name@[k] != 0,
            decreases MAXPNAMELEN - len,
        {
            len = len + 1;
        }
        proof {
            lemma_first_zero_skips(raw_name@, len as int);
        }
        if len == MAXPNAMELEN {
            len = MAXPNAMELEN - 1;
        }
        let units = slice_subrange(raw_name.as_slice(), 0, len);
        assert(units@ =~= raw_name@.take(len as int));
        Ok(from_utf16_lossy(units))
    }

    /// The two reset messages that put a device into a known state, as plans for
    /// sending them: General MIDI "system on" first, GS reset second. Both are long
    /// messages. They go out right after connecting and right before teardown.
    pub fn send_reset(&self) -> (plans: Vec<SendPlan>)
        ensures
            plans@.len() == 2,
            planned(gm_system_on(), plans@[0]),
            planned(gs_reset(), plans@[1]),
    {
        let system_on: [u8; 6] = [0xF0, 0x7E, 0x7F, 0x09, 0x01, 0xF7];
        let reset: [u8; 11] = [0xF0, 0x41, 0x10, 0x42, 0x12, 0x40, 0x00, 0x7F, 0x00, 0x41, 0xF7];
        assert(system_on@ =~= gm_system_on());
        assert(reset@ =~= gs_reset());
        let mut plans: Vec<SendPlan> = Vec::new();
        plans.push(self.send(system_on.as_slice()));
        plans.push(self.send(reset.as_slice()));
        plans
    }

    /// Reads the statuses of the driver's reset call and close call at teardown.
    ///
    /// Teardown never fails: a status other than success is reported for the log
    /// and nothing else follows from it.
    pub fn close(&self, reset_status: u32, close_status: u32) -> (report: Teardown)
        ensures
            report.reset_failure == failure_of(reset_status),
            report.close_failure == failure_of(close_status),
    {
        let reset_failure = if reset_status != MMSYSERR_NOERROR {
            Some(reset_status)
        } else {
            None
        };
        let close_failure = if close_status != MMSYSERR_NOERROR {
            Some(close_status)
        } else {
            None
        };
        Teardown { reset_failure, close_failure }
    }

    /// Decides how `message` goes to the device.
    ///
    /// An empty message is not sent. Up to three bytes travel in one word, byte 0
    /// lowest. A longer message is copied into storage of its own, to be prepared
    /// and submitted by the caller.
    pub fn send(&self, message: &[u8]) -> (plan: SendPlan)
        ensures
            planned(message@, plan),
    {
        let len = message.len();
        if len == 0 {
            SendPlan::Nothing
        } else if len <= 3 {
            let low: u32 = message[0] as u32;
            let middle: u32 = if len > 1 {
                message[1] as u32
            } else {
                0
            };
            let high: u32 = if len > 2 {
                message[2] as u32
            } else {
                0
            };
            SendPlan::Short(low + 256 * middle + 65536 * high)
        } else {
            SendPlan::Long(InflightRequest { message: slice_to_vec(message) })
        }
    }

    /// Reads the status of a short-message call.
    ///
    /// "Busy" asks for the call again, and is never an error; success ends the send;
    /// any other status fails it with that status.
    pub fn short_sent(&self, status: u32) -> (step: ShortStep)
        ensures
            step == short_step(status),
    {
        if status == MIDIERR_NOTREADY {
            ShortStep::Retry
        } else if status == MMSYSERR_NOERROR {
            ShortStep::Sent
        } else {
            ShortStep::Failed(PortError::DeviceError(status))
        }
    }

    /// Reads the status of the driver's prepare call for `request`.
    ///
    /// On success the request comes back, ready to be submitted. On any other
    /// status it is discarded and the send fails with that status.
    pub fn prepared(&self, request: InflightRequest, status: u32) -> (ready: Result<
        InflightRequest,
        PortError,
    >)
        ensures
            status == MMSYSERR_NOERROR ==> ready == Ok::<InflightRequest, PortError>(request),
            status != MMSYSERR_NOERROR ==> ready == Err::<InflightRequest, PortError>(
                PortError::DeviceError(status),
            ),
    {
        if status == MMSYSERR_NOERROR {
            Ok(request)
        } else {
            Err(PortError::DeviceError(status))
        }
    }

    /// Reads the status of the driver's long-message call for `request`.
    ///
    /// "Busy" hands the request back for another try. On success the request joins
    /// the in-flight list, behind those already there, and stays until
    /// [`WinMidiPort::check_inflight`] sees the driver release it. Any other status
    /// discards it. The list changes in no other way.
    pub fn long_sent(&mut self, request: InflightRequest, status: u32) -> (step: LongStep)
        ensures
            status == MIDIERR_NOTREADY ==> step == LongStep::Retry(request) && final(self).inflight()
                == old(self).inflight(),
            status == MMSYSERR_NOERROR ==> step == LongStep::Submitted && final(self).inflight()
                == old(self).inflight().push(request),
            status != MIDIERR_NOTREADY && status != MMSYSERR_NOERROR ==> step == LongStep::Failed(
                PortError::DeviceError(status),
            ) && final(self).inflight() == old(self).inflight(),
    {
        if status == MIDIERR_NOTREADY {
            LongStep::Retry(request)
        } else if status == MMSYSERR_NOERROR {
            self.inflight.push(request);
            LongStep::Submitted
        } else {
            LongStep::Failed(PortError::DeviceError(status))
        }
    }

    /// The requests in flight, oldest first: the caller's headers point into their
    /// bytes.
    pub fn requests(&self) -> (requests: &Vec<InflightRequest>)
        ensures
            requests@ == self.inflight(),
    {
        &self.inflight
    }

    /// Whether the driver still holds a long message.
    pub fn have_inflight(&self) -> (any: bool)
        ensures
            any == (self.inflight().len() > 0),
    {
        !self.inflight.is_empty()
    }

    /// Drops from the in-flight list every request that the driver has released.
    ///
    /// `completions[i]` is what the driver shows of the `i`-th request in flight.
    /// A request leaves the list exactly when its observation is marked done and
    /// its unprepare call did not answer "still playing"; every other request stays,
    /// bytes and order untouched. Returns the positions, in the list before the
    /// call, of the requests that left, ascending: their headers can be freed.
    pub fn check_inflight(&mut self, completions: &Vec<Completion>) -> (reclaimed: Vec<usize>)
        ensures
            final(self).inflight() == retained(old(self).inflight(), completions@),
            reclaimed@ == released_positions(completions@, old(self).inflight().len() as int),
            forall|i: int|
                0 <= i < old(self).inflight().len() && !#[trigger] released_at(completions@, i) ==> {
                    let slot = i - released_positions(completions@, i).len();
                    &&& 0 <= slot < final(self).inflight().len()
                    &&& final(self).inflight()[slot] == old(self).inflight()[i]
                },
    {
        let ghost entries = self.inflight@;
        let count = self.inflight.len();
        let mut reclaimed: Vec<usize> = Vec::new();
        let mut i: usize = 0;
        while i < count
            invariant
                i <= count,
                count == entries.len(),
                self.inflight@ == entries,
                reclaimed@ == released_positions(completions@, i as int),
            decreases count - i,
        {
            if i < completions.len() && completions[i].is_released() {
                reclaimed.push(i);
            }
            i = i + 1;
        }
        proof {
            lemma_released_positions(completions@, count as int);
        }
        let mut k: usize = reclaimed.len();
        while k > 0
            invariant
                k <= reclaimed@.len(),
                count == entries.len(),
                reclaimed@ == released_positions(completions@, count as int),
                forall|m: int|
                    0 <= m < reclaimed@.len() ==> 0 <= #[trigger] reclaimed@[m] < count && released_at(
                        completions@,
                        reclaimed@[m] as int,
                    ),
                forall|m: int, n: int|
                    0 <= m < n < reclaimed@.len() ==> #[trigger] reclaimed@[m] < #[trigger] reclaimed@[n],
                forall|p: int|
                    0 <= p < count && #[trigger] released_at(completions@, p) ==> reclaimed@.contains(
                        p as usize,
                    ),
                self.inflight@ == entries.take(Self::cut(reclaimed@, k as int, count as int))
                    + retained_from(
                    entries,
                    completions@,
                    Self::cut(reclaimed@, k as int, count as int),
                ),
            decreases k,
        {
            let ghost above = Self::cut(reclaimed@, k as int, count as int);
            k = k - 1;
            let index = reclaimed[k];
            proof {
                assert forall|p: int| index < p < above implies !released_at(completions@, p) by {
                    if released_at(completions@, p) {
                        let m = choose|m: int| 0 <= m < reclaimed@.len() && reclaimed@[m] == p as usize;
                        assert(reclaimed@[k as int] < reclaimed@[m]);
                        if k + 1 < reclaimed@.len() {
                            assert(reclaimed@[m] < reclaimed@[k + 1]);
                        }
                    }
                }
                lemma_retained_gap(entries, completions@, index + 1, above);
            }
            self.inflight.remove(index);
            proof {
                let rest = retained_from(entries, completions@, above);
                assert(self.inflight@ =~= entries.take(index as int) + (entries.subrange(index + 1, above)
                    + rest));
            }
        }
        proof {
            let first = Self::cut(reclaimed@, 0, count as int);
            assert forall|p: int| 0 <= p < first implies !released_at(completions@, p) by {
                if released_at(completions@, p) {
                    let m = choose|m: int| 0 <= m < reclaimed@.len() && reclaimed@[m] == p as usize;
                    if m > 0 {
                        assert(reclaimed@[0] < reclaimed@[m]);
                    }
                }
            }
            lemma_retained_gap(entries, completions@, 0, first);
            assert(entries.subrange(0, first) =~= entries.take(first));
            assert forall|i: int| 0 <= i < entries.len() && !#[trigger] released_at(
                completions@,
                i,
            ) implies ({
                let slot = i - released_positions(completions@, i).len();
                &&& 0 <= slot < self.inflight@.len()
                &&& self.inflight@[slot] == entries[i]
            }) by {
                lemma_unreleased_survives(entries, completions@, i);
            }
        }
        reclaimed
    }

    /// The position up to which the list is still whole once the released positions
    /// from the `k`-th on are gone.
    spec fn cut(positions: Seq<usize>, k: int, count: int) -> int {
        if 0 <= k < positions.len() {
            positions[k] as int
        } else {
            count
        }
    }
}

} // verus!
