//! The simulator side of the input link and the hand-over of decoded
//! measurements to the GUI, both over in-process channels.

use vstd::prelude::*;

use crate::errors::{FrameParseError, SystemError};
use crate::frame::{Measurement, TransportFrame, FRAME_LENGTH};
use vstd::string::StringExecFns;

verus! {

#[verifier::external_type_specification]
#[verifier::external_body]
#[verifier::reject_recursive_types(T)]
pub struct ExReceiver<T>(std::sync::mpsc::Receiver<T>);

#[verifier::external_type_specification]
#[verifier::external_body]
#[verifier::reject_recursive_types(T)]
pub struct ExSender<T>(std::sync::mpsc::Sender<T>);

/// Waits for the next frame.
///
/// Trusted: `Receiver::recv` blocks until a frame arrives (`Some`) or every
/// sender is gone (`None`). What arrives depends on the other thread, so
/// nothing is stated of the result.
#[verifier::external_body]
fn recv_frame(rx: &std::sync::mpsc::Receiver<TransportFrame>) -> Option<TransportFrame> {
    rx.recv().ok()
}

/// Input from the simulator thread: frames arrive over a channel.
pub struct SimReceiver {
    rx: std::sync::mpsc::Receiver<TransportFrame>,
}

impl SimReceiver {
    pub closed spec fn spec_rx(&self) -> std::sync::mpsc::Receiver<TransportFrame> {
        self.rx
    }

    pub fn new(rx: std::sync::mpsc::Receiver<TransportFrame>) -> (r: Self)
        ensures
            r.spec_rx() == rx,
    {
        Self { rx }
    }

    /// The next frame from the simulator, passed on as it is; `None` when the
    /// simulator thread has stopped (the application reports a timeout).
    pub fn read_measurement(&mut self) -> (r: Option<TransportFrame>)
        ensures
            final(self).spec_rx() == old(self).spec_rx(),
    {
        recv_frame(&self.rx)
    }
}

/// The sending end of the channel to the GUI, with the measurements that
/// were handed to it so far.
pub struct GuiLink {
    tx: std::sync::mpsc::Sender<Measurement>,
    sent: Ghost<Seq<Measurement>>,
}

impl GuiLink {
    /// The measurements handed to the GUI channel so far, in order.
    pub closed spec fn sent(&self) -> Seq<Measurement> {
        self.sent@
    }

    /// A link over the sending end of a channel; nothing is sent yet.
    pub fn new(tx: std::sync::mpsc::Sender<Measurement>) -> (r: Self)
        ensures
            r.sent() == Seq::<Measurement>::empty(),
    {
        Self { tx, sent: Ghost(Seq::empty()) }
    }

    /// Sends a measurement.
    ///
    /// Trusted: `Sender::send` hands the value to the channel and returns
    /// `Ok` while the receiving end exists; otherwise it returns `Err` with
    /// the value handed back, and nothing is sent. Whether the receiver
    /// still exists depends on the other thread, so the outcome is not
    /// stated; what was sent is, in each case.
    #[verifier::external_body]
    fn send(&mut self, m: Measurement) -> (ok: bool)
        ensures
            ok ==> final(self).sent() == old(self).sent().push(m),
            !ok ==> final(self).sent() == old(self).sent(),
    {
        self.tx.send(m).is_ok()
    }
}

/// Hands a measurement to the GUI when a GUI link is present.
///
/// Without a link nothing happens and the result is `Ok`. With a link the
/// measurement is sent: `Ok` means it was handed on; when the GUI side is
/// gone nothing is sent and the error is
/// `SystemError { code: 99, message: "Channel closed" }`.
pub fn push_measurement_to_gui(
    m: &Measurement,
    link: &mut Option<GuiLink>,
) -> (r: Result<(), SystemError>)
    ensures
        *old(link) is None ==> r is Ok && *final(link) is None,
        *old(link) matches Some(l) ==> (*final(link) matches Some(l2) && (r is Ok ==> l2.sent()
            == l.sent().push(*m)) && (r is Err ==> l2.sent() == l.sent())),
        r matches Err(e) ==> e.code == 99 && e.message@ == "Channel closed"@,
{
    match link {
        Some(l) => {
            if l.send(*m) {
                Ok(())
            } else {
                Err(SystemError { code: 99, message: String::from_str("Channel closed") })
            }
        },
        None => Ok(()),
    }
}

/// Longest time to wait for the device to appear, in seconds.
pub const MAX_WAIT_SECS: u64 = 600;

/// What waiting for the device does after one search.
#[derive(Debug)]
pub enum WaitStep {
    /// The device was found at this port.
    Connected(String),
    /// The wait has lasted longer than [`MAX_WAIT_SECS`]; it ends in a timeout.
    GiveUp,
    /// Search again after a pause.
    KeepWaiting,
}

/// The decision after one search for the device, given its result and the
/// time waited so far (whole seconds and the nanoseconds beyond them).
pub fn wait_step(found: Option<String>, elapsed_secs: u64, elapsed_subsec_nanos: u32) -> (r: WaitStep)
    ensures
        match found {
            Some(p) => r matches WaitStep::Connected(q) && q@ == p@,
            None => if elapsed_secs > MAX_WAIT_SECS || (elapsed_secs == MAX_WAIT_SECS
                && elapsed_subsec_nanos > 0) {
                r is GiveUp
            } else {
                r is KeepWaiting
            },
        },
{
    match found {
        Some(p) => WaitStep::Connected(p),
        None => {
            if elapsed_secs > MAX_WAIT_SECS || (elapsed_secs == MAX_WAIT_SECS && elapsed_subsec_nanos
                > 0) {
                WaitStep::GiveUp
            } else {
                WaitStep::KeepWaiting
            }
        },
    }
}

/// Longest text line accepted from the device, in bytes.
pub const MAX_LINE_LEN: usize = 64;

/// ASCII whitespace as `u8::is_ascii_whitespace` defines it
/// (space, tab, line feed, form feed, carriage return).
pub open spec fn is_ascii_ws_byte(b: u8) -> bool {
    b == 0x20 || b == 0x09 || b == 0x0A || b == 0x0C || b == 0x0D
}

/// `s` without its trailing ASCII whitespace.
pub open spec fn trim_ascii_end(s: Seq<u8>) -> Seq<u8>
    decreases s.len(),
{
    if s.len() > 0 && is_ascii_ws_byte(s.last()) {
        trim_ascii_end(s.drop_last())
    } else {
        s
    }
}

/// What a line read from the device becomes: nothing read means the
/// connection is closed (`None`); more than 64 bytes is a length error;
/// otherwise a text frame without trailing ASCII whitespace.
pub open spec fn spec_line_to_frame(line: Seq<u8>) -> Result<Option<Seq<u8>>, FrameParseError> {
    if line.len() == 0 {
        Ok(None)
    } else if line.len() > MAX_LINE_LEN {
        Err(FrameParseError::InvalidBitLength { expected: FRAME_LENGTH, found: line.len() as usize })
    } else {
        Ok(Some(trim_ascii_end(line)))
    }
}

/// Turns one line read from the device (up to and including `\n`) into a
/// text frame; `Ok(None)` when nothing was read, i.e. the port is closed.
pub fn line_to_frame(line: &[u8]) -> (r: Result<Option<TransportFrame>, FrameParseError>)
    ensures
        match spec_line_to_frame(line@) {
            Ok(None) => r == Ok::<Option<TransportFrame>, FrameParseError>(None),
            Ok(Some(t)) => r matches Ok(Some(TransportFrame::Str(v))) && v@ == t,
            Err(e) => r == Err::<Option<TransportFrame>, FrameParseError>(e),
        },
{
    let n = line.len();
    if n == 0 {
        return Ok(None);
    }
    if n > MAX_LINE_LEN {
        return Err(FrameParseError::InvalidBitLength { expected: FRAME_LENGTH, found: n });
    }
    let mut end = n;
    proof {
        assert(line@.subrange(0, n as int) =~= line@);
    }
    while end > 0 && (line[end - 1] == 0x20 || line[end - 1] == 0x09 || line[end - 1] == 0x0A
        || line[end - 1] == 0x0C || line[end - 1] == 0x0D)
        invariant
            end <= n,
            n == line@.len(),
            trim_ascii_end(line@) == trim_ascii_end(line@.subrange(0, end as int)),
        decreases end,
    {
        proof {
            assert(line@.subrange(0, end as int).drop_last() =~= line@.subrange(0, end - 1));
        }
        end = end - 1;
    }
    let mut out: Vec<u8> = Vec::new();
    let mut i: usize = 0;
    while i < end
        invariant
            i <= end <= n,
            n == line@.len(),
            out@ == line@.subrange(0, i as int),
        decreases end - i,
    {
        out.push(line[i]);
        proof {
            assert(line@.subrange(0, i + 1) =~= line@.subrange(0, i as int).push(line@[i as int]));
        }
        i = i + 1;
    }
    Ok(Some(TransportFrame::Str(out)))
}

} // verus!
