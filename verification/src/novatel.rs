//! The LOG command of the NovAtel OEM6 receiver.

use vstd::prelude::*;
use crate::little_endian::{append_u16, append_u32, append_u64, le_bytes, lemma_le_bytes_len};

verus! {

broadcast use lemma_le_bytes_len;

/// Number of bytes that the body of a LOG command takes, after the header.
pub const LOG_BODY_LEN: usize = 32;

/// When the receiver is to emit the requested log.
#[derive(Copy, Clone, Debug, PartialEq, Eq)]
pub enum LogTrigger {
    /// Whenever the logged data changes.
    OnChanged,
    /// At a fixed period.
    OnTime,
    /// Once, now.
    Once,
}

impl LogTrigger {
    /// The number that stands for this trigger in a command.
    pub open spec fn spec_code(self) -> u32 {
        match self {
            LogTrigger::OnChanged => 1,
            LogTrigger::OnTime => 2,
            LogTrigger::Once => 4,
        }
    }

    /// The number that stands for this trigger in a command.
    #[verifier::when_used_as_spec(spec_code)]
    pub fn code(self) -> (r: u32)
        ensures
            r == self.spec_code(),
    {
        match self {
            LogTrigger::OnChanged => 1,
            LogTrigger::OnTime => 2,
            LogTrigger::Once => 4,
        }
    }
}

/// A LOG command: a request that the receiver emit one kind of message on one of its
/// ports.
///
/// The period and the offset are lengths of time in seconds, held as the bit patterns
/// of IEEE 754 double-precision numbers.
pub struct LogCmd {
    hdr: Vec<u8>,
    port: u32,
    msg_id: u16,
    msg_type: u8,
    trigger: LogTrigger,
    period: u64,
    offset: u64,
    hold: bool,
}

/// The mathematical model of a [`LogCmd`].
pub struct LogCmdView {
    /// The serialized message header.
    pub hdr: Seq<u8>,
    /// The port on which the log is to appear.
    pub port: u32,
    /// The kind of message to log.
    pub msg_id: u16,
    /// The format of the logged message.
    pub msg_type: u8,
    /// When to emit the log.
    pub trigger: LogTrigger,
    /// Bit pattern of the period, in seconds.
    pub period: u64,
    /// Bit pattern of the offset, in seconds.
    pub offset: u64,
    /// Whether the log is exempt from removal by a general "unlog" request.
    pub hold: bool,
}

impl LogCmdView {
    /// The body of the command: port, message id, message type, one reserved byte,
    /// trigger, period, offset and hold flag, each little-endian.
    pub open spec fn body(self) -> Seq<u8> {
        le_bytes(self.port as nat, 4) + le_bytes(self.msg_id as nat, 2) + seq![self.msg_type, 0u8]
            + le_bytes(self.trigger.spec_code() as nat, 4) + le_bytes(self.period as nat, 8)
            + le_bytes(self.offset as nat, 8) + le_bytes(
            if self.hold {
                1nat
            } else {
                0nat
            },
            4,
        )
    }

    /// The bytes of the command: header, then body.
    pub open spec fn wire(self) -> Seq<u8> {
        self.hdr + self.body()
    }
}

impl View for LogCmd {
    type V = LogCmdView;

    closed spec fn view(&self) -> LogCmdView {
        LogCmdView {
            hdr: self.hdr@,
            port: self.port,
            msg_id: self.msg_id,
            msg_type: self.msg_type,
            trigger: self.trigger,
            period: self.period,
            offset: self.offset,
            hold: self.hold,
        }
    }
}

impl LogCmd {
    /// Builds a LOG command behind the serialized header `hdr`. The message type is 0,
    /// the binary format.
    pub fn new(
        hdr: Vec<u8>,
        port: u32,
        msg_id: u16,
        trigger: LogTrigger,
        period: u64,
        offset: u64,
        hold: bool,
    ) -> (r: Self)
        ensures
            r@ == (LogCmdView { hdr: hdr@, port, msg_id, msg_type: 0, trigger, period, offset, hold }),
    {
        LogCmd { hdr, port, msg_id, msg_type: 0, trigger, period, offset, hold }
    }

    /// Lays the command out as bytes.
    pub fn serialize(&self) -> (r: Vec<u8>)
        ensures
            r@ == self@.wire(),
            r@.len() == self@.hdr.len() + LOG_BODY_LEN,
    {
        let mut vec: Vec<u8> = Vec::new();
        let mut i: usize = 0;
        while i < self.hdr.len()
            invariant
                i <= self.hdr.len(),
                vec@ == self.hdr@.subrange(0, i as int),
            decreases self.hdr.len() - i,
        {
            vec.push(self.hdr[i]);
            proof {
                assert(vec@ =~= self.hdr@.subrange(0, i + 1));
            }
            i += 1;
        }
        proof {
            assert(self.hdr@.subrange(0, i as int) =~= self.hdr@);
        }
        append_u32(&mut vec, self.port);
        append_u16(&mut vec, self.msg_id);
        vec.push(self.msg_type);
        vec.push(0x00);
        append_u32(&mut vec, self.trigger.code());
        append_u64(&mut vec, self.period);
        append_u64(&mut vec, self.offset);
        let hold: u32 = if self.hold {
            1
        } else {
            0
        };
        append_u32(&mut vec, hold);
        proof {
            assert(vec@ =~= self@.wire());
        }
        vec
    }
}

/// The body of every LOG command is `LOG_BODY_LEN` bytes long.
pub proof fn lemma_log_body_len(cmd: LogCmdView)
    ensures
        cmd.body().len() == LOG_BODY_LEN,
{
}

} // verus!
