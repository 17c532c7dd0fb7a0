//! Registers behind an I2C bus: which messages go over the bus, and when an access ends.

use vstd::prelude::*;
use vstd::string::StringExecFns;

use crate::text::{decimal, decimal_text};
use crate::time::{Duration, Instant, MAX_NANOS};

verus! {

/// Marks a message that reads.
pub const I2C_M_RD: u16 = 1;

/// How long a failed access is retried: 2 s.
pub const DEADLINE_NANOS: u128 = 2_000_000_000;

/// How long to wait before a retry: 5 ms.
pub const RETRY_DELAY_NANOS: u128 = 5_000_000;

/// How long to wait between the write of a selector and the read behind it: 4 ms. Found by trial on
/// one device, where reads failed without the gap; not a requirement of the coprocessor.
pub const SELECTOR_READ_DELAY_NANOS: u128 = 4_000_000;

/// Why a transfer failed.
#[derive(Debug, Clone, Copy, PartialEq, Eq, Structural)]
pub enum I2cFault {
    /// A message is longer than the bus interface can say.
    MessageTooLong,
    /// There are more messages than the bus interface can count.
    TooManyMessages,
    /// The system refused with this error number.
    Os(i32),
    /// Only some of the messages went over the bus.
    Incomplete { done: u32, requested: usize },
}

impl I2cFault {
    /// The fault in words, for those that do not come from the system.
    pub open spec fn spec_text(self) -> Option<Seq<char>> {
        match self {
            I2cFault::MessageTooLong => Some("I2C message exceeds 65535 bytes"@),
            I2cFault::TooManyMessages => Some("too many I2C messages"@),
            I2cFault::Os(_) => None,
            I2cFault::Incomplete { done, requested } => Some(
                "incomplete I2C transfer: "@ + decimal(done as nat) + "/"@ + decimal(
                    requested as nat,
                ) + " messages"@,
            ),
        }
    }

    /// The fault in words, for those that do not come from the system.
    pub fn text(&self) -> (text: Option<String>)
        ensures
            match self.spec_text() {
                Some(words) => text matches Some(t) && t@ == words,
                None => text is None,
            },
    {
        match self {
            I2cFault::MessageTooLong => Some(String::from_str("I2C message exceeds 65535 bytes")),
            I2cFault::TooManyMessages => Some(String::from_str("too many I2C messages")),
            I2cFault::Os(_) => None,
            I2cFault::Incomplete { done, requested } => {
                let mut text = String::from_str("incomplete I2C transfer: ");
                text.append(decimal_text(*done as u64).as_str());
                text.append("/");
                text.append(decimal_text(*requested as u64).as_str());
                text.append(" messages");
                Some(text)
            },
        }
    }
}

/// Why the coprocessor could not be used.
#[allow(inconsistent_fields)]
#[derive(Debug, Clone, Copy, PartialEq, Eq, Structural)]
pub enum MfiI2cError {
    /// A register could not be read in time.
    ReadTimeout { reg: u8, n: usize, tries: u32, status: I2cFault },
    /// A register could not be written in time.
    WriteTimeout { reg: u8, n: usize, tries: u32, status: I2cFault },
    /// The coprocessor gave a size that makes no sense.
    UnexpectedSize(usize),
    /// The coprocessor did not sign.
    SigningError { status: u8, code: u8 },
}

/// One message on the bus.
#[derive(Debug, Clone, Copy, PartialEq, Eq, Structural)]
pub struct I2cMessage {
    pub addr: u16,
    pub flags: u16,
    pub len: u16,
}

/// Whether the write of a selector ends with STOP and a gap. Each platform has its own bus and
/// address: bus 0 and address 0x10 is the one that needs it, the others take a combined transfer.
pub fn split_selector_for(bus_offset: u32, dev_addr: u8) -> (split: bool)
    ensures
        split == (bus_offset == 0 && dev_addr == 0x10),
{
    bus_offset == 0 && dev_addr == 0x10
}

/// The file that stands for a bus.
pub fn bus_path(bus_offset: u32) -> (path: String)
    ensures
        path@ == "/dev/i2c-"@ + decimal(bus_offset as nat),
{
    let mut path = String::from_str("/dev/i2c-");
    path.append(decimal_text(bus_offset as u64).as_str());
    path
}

/// The length of a message, if the bus interface can say it.
pub fn checked_i2c_len(len: usize) -> (checked: Result<u16, I2cFault>)
    ensures
        checked == (if len <= 65535 {
            Ok::<u16, I2cFault>(len as u16)
        } else {
            Err(I2cFault::MessageTooLong)
        }),
{
    if len <= 65535 {
        Ok(len as u16)
    } else {
        Err(I2cFault::MessageTooLong)
    }
}

/// The number of messages, if the bus interface can say it.
pub fn checked_message_count(len: usize) -> (checked: Result<u32, I2cFault>)
    ensures
        checked == (if len <= u32::MAX {
            Ok::<u32, I2cFault>(len as u32)
        } else {
            Err(I2cFault::TooManyMessages)
        }),
{
    if len as u64 <= u32::MAX as u64 {
        Ok(len as u32)
    } else {
        Err(I2cFault::TooManyMessages)
    }
}

/// What a transfer of so many messages came to, from what the system returned and its last error.
pub fn transfer_outcome(returned: i32, os_error: i32, messages: usize) -> (outcome: Result<
    (),
    I2cFault,
>)
    ensures
        outcome == (if returned < 0 {
            Err::<(), I2cFault>(I2cFault::Os(os_error))
        } else if returned != messages {
            Err(I2cFault::Incomplete { done: returned as u32, requested: messages })
        } else {
            Ok(())
        }),
{
    if returned < 0 {
        return Err(I2cFault::Os(os_error));
    }
    let done: u32 = returned as u32;
    if done as usize != messages {
        return Err(I2cFault::Incomplete { done, requested: messages });
    }
    Ok(())
}

/// The message that writes `len` bytes.
pub open spec fn write_message_of(dev_addr: u8, len: int) -> I2cMessage {
    I2cMessage { addr: dev_addr as u16, flags: 0, len: len as u16 }
}

/// The message that reads `len` bytes.
pub open spec fn read_message_of(dev_addr: u8, len: int) -> I2cMessage {
    I2cMessage { addr: dev_addr as u16, flags: I2C_M_RD, len: len as u16 }
}

/// The message that writes `len` bytes, if that is not too long.
pub fn write_message(dev_addr: u8, len: usize) -> (message: Result<I2cMessage, I2cFault>)
    ensures
        message == (if len <= 65535 {
            Ok::<I2cMessage, I2cFault>(write_message_of(dev_addr, len as int))
        } else {
            Err(I2cFault::MessageTooLong)
        }),
{
    let len: u16 = checked_i2c_len(len)?;
    Ok(I2cMessage { addr: dev_addr as u16, flags: 0, len })
}

/// What a write followed by a read asks for.
#[derive(Debug, Clone, Copy, PartialEq, Eq)]
pub enum WriteReadStep {
    /// Transfer only the message that writes.
    TransferWrite,
    /// Transfer only the message that reads.
    TransferRead,
    /// Transfer both messages in one.
    TransferBoth,
    /// Sleep.
    Sleep(Duration),
    /// Stop: this is the result.
    Done(Result<(), I2cFault>),
}

impl WriteReadStep {
    /// Whether this is a transfer.
    pub open spec fn transfers(self) -> bool {
        self is TransferWrite || self is TransferRead || self is TransferBoth
    }

    /// What follows a transfer with this outcome.
    pub open spec fn after(self, outcome: Result<(), I2cFault>) -> WriteReadStep {
        if outcome is Ok && self is TransferWrite {
            WriteReadStep::Sleep(Duration { nanos: SELECTOR_READ_DELAY_NANOS })
        } else {
            WriteReadStep::Done(outcome)
        }
    }
}

/// A write followed by a read.
#[derive(Debug, Clone, Copy, PartialEq, Eq)]
pub struct WriteRead {
    pub write: I2cMessage,
    pub read: I2cMessage,
    /// What was asked for last.
    pub asked: WriteReadStep,
}

impl WriteRead {
    /// Begins a write followed by a read. Both lengths are checked before anything happens on the
    /// bus.
    pub fn begin(dev_addr: u8, write_len: usize, read_len: usize, split: bool) -> (begun: Result<
        WriteRead,
        I2cFault,
    >)
        ensures
            begun == (if write_len > 65535 || read_len > 65535 {
                Err::<WriteRead, I2cFault>(I2cFault::MessageTooLong)
            } else {
                Ok(
                    WriteRead {
                        write: write_message_of(dev_addr, write_len as int),
                        read: read_message_of(dev_addr, read_len as int),
                        asked: if split {
                            WriteReadStep::TransferWrite
                        } else {
                            WriteReadStep::TransferBoth
                        },
                    },
                )
            }),
    {
        let write = write_message(dev_addr, write_len)?;
        let len: u16 = checked_i2c_len(read_len)?;
        Ok(
            WriteRead {
                write,
                read: I2cMessage { addr: dev_addr as u16, flags: I2C_M_RD, len },
                asked: if split {
                    WriteReadStep::TransferWrite
                } else {
                    WriteReadStep::TransferBoth
                },
            },
        )
    }

    /// What follows a transfer with this outcome: a failure ends it all, and a selector that was
    /// written alone is followed by the gap.
    pub fn transferred(&mut self, outcome: Result<(), I2cFault>) -> (step: WriteReadStep)
        requires
            old(self).asked.transfers(),
        ensures
            step == old(self).asked.after(outcome),
            *final(self) == (WriteRead { asked: step, ..*old(self) }),
    {
        let step = match (outcome, self.asked) {
            (Ok(()), WriteReadStep::TransferWrite) => WriteReadStep::Sleep(
                Duration { nanos: SELECTOR_READ_DELAY_NANOS },
            ),
            _ => WriteReadStep::Done(outcome),
        };
        self.asked = step;
        step
    }

    /// What follows the gap: the read.
    pub fn slept(&mut self) -> (step: WriteReadStep)
        requires
            old(self).asked is Sleep,
        ensures
            step == WriteReadStep::TransferRead,
            *final(self) == (WriteRead { asked: step, ..*old(self) }),
    {
        self.asked = WriteReadStep::TransferRead;
        WriteReadStep::TransferRead
    }
}

/// What is done with a register.
#[derive(Debug, Clone, Copy, PartialEq, Eq, Structural)]
pub enum AccessKind {
    /// Its address is written and bytes are read, with or without a gap in between.
    Read { split: bool },
    /// Its address and bytes are written.
    Write,
}

/// Where an access to a register is: what it waits for.
#[derive(Debug, Clone, Copy, PartialEq, Eq)]
pub enum AccessPhase {
    /// The transfer of this message.
    Writing(I2cMessage),
    /// What this exchange asks for.
    Exchanging(WriteRead),
    /// The pause before the next try.
    Pausing(Duration),
    /// Nothing: this is the result.
    Finished(Result<(), MfiI2cError>),
}

/// An access to `n` bytes of a register, which is tried again until it succeeds or its time is up.
#[derive(Debug, Clone, Copy, PartialEq, Eq)]
pub struct RegisterAccess {
    pub dev_addr: u8,
    pub reg: u8,
    pub n: usize,
    pub kind: AccessKind,
    pub deadline: Instant,
    pub tries: u32,
    pub phase: AccessPhase,
}

impl RegisterAccess {
    /// Whether the access waits for a transfer.
    pub open spec fn transferring(self) -> bool {
        match self.phase {
            AccessPhase::Writing(_) => true,
            AccessPhase::Exchanging(exchange) => exchange.asked.transfers(),
            _ => false,
        }
    }

    /// Whether the access waits for a gap or a pause to pass.
    pub open spec fn sleeping(self) -> bool {
        match self.phase {
            AccessPhase::Exchanging(exchange) => exchange.asked is Sleep,
            AccessPhase::Pausing(_) => true,
            _ => false,
        }
    }

    /// The error for an access whose time is up, after a try that failed like this.
    pub open spec fn timeout(self, status: I2cFault) -> MfiI2cError {
        let RegisterAccess { reg, n, tries, .. } = self;
        if self.kind is Write {
            MfiI2cError::WriteTimeout { reg, n, tries, status }
        } else {
            MfiI2cError::ReadTimeout { reg, n, tries, status }
        }
    }

    /// The access after a try that failed at `now`: it pauses, or ends where its time is up.
    pub open spec fn failed(self, status: I2cFault, now: Instant) -> Self {
        RegisterAccess {
            phase: if now.nanos >= self.deadline.nanos {
                AccessPhase::Finished(Err(self.timeout(status)))
            } else {
                AccessPhase::Pausing(Duration { nanos: RETRY_DELAY_NANOS })
            },
            ..self
        }
    }

    /// The access after it began a try at `now`. Messages that are too long fail at once.
    pub open spec fn attempted(self, now: Instant) -> Self {
        let counted = RegisterAccess { tries: (self.tries + 1) as u32, ..self };
        match self.kind {
            AccessKind::Read { split } => if self.n > 65535 {
                counted.failed(I2cFault::MessageTooLong, now)
            } else {
                RegisterAccess {
                    phase: AccessPhase::Exchanging(
                        WriteRead {
                            write: write_message_of(self.dev_addr, 1),
                            read: read_message_of(self.dev_addr, self.n as int),
                            asked: if split {
                                WriteReadStep::TransferWrite
                            } else {
                                WriteReadStep::TransferBoth
                            },
                        },
                    ),
                    ..counted
                }
            },
            AccessKind::Write => if self.n + 1 > 65535 {
                counted.failed(I2cFault::MessageTooLong, now)
            } else {
                RegisterAccess {
                    phase: AccessPhase::Writing(write_message_of(self.dev_addr, self.n + 1)),
                    ..counted
                }
            },
        }
    }

    /// The access after a transfer that ended with this outcome at `now`.
    pub open spec fn after_transfer(self, outcome: Result<(), I2cFault>, now: Instant) -> Self {
        let next = match self.phase {
            AccessPhase::Exchanging(exchange) => exchange.asked.after(outcome),
            _ => WriteReadStep::Done(outcome),
        };
        match (next, self.phase) {
            (WriteReadStep::Done(Err(status)), _) => self.failed(status, now),
            (WriteReadStep::Done(Ok(_)), _) => RegisterAccess {
                phase: AccessPhase::Finished(Ok(())),
                ..self
            },
            (asked, AccessPhase::Exchanging(exchange)) => RegisterAccess {
                phase: AccessPhase::Exchanging(WriteRead { asked, ..exchange }),
                ..self
            },
            _ => self,
        }
    }

    /// The access after a gap or a pause passed.
    pub open spec fn after_sleep(self, now: Instant) -> Self {
        match self.phase {
            AccessPhase::Exchanging(exchange) => RegisterAccess {
                phase: AccessPhase::Exchanging(
                    WriteRead { asked: WriteReadStep::TransferRead, ..exchange },
                ),
                ..self
            },
            _ => self.attempted(now),
        }
    }

    /// Begins the first try. The access has two seconds.
    pub fn begin(dev_addr: u8, reg: u8, n: usize, kind: AccessKind, now: Instant) -> (access: Self)
        requires
            now.nanos + DEADLINE_NANOS <= MAX_NANOS,
        ensures
            access == RegisterAccess::begun(dev_addr, reg, n, kind, now),
    {
        let mut access = RegisterAccess {
            dev_addr,
            reg,
            n,
            kind,
            deadline: now.after(Duration { nanos: DEADLINE_NANOS }),
            tries: 0,
            phase: AccessPhase::Pausing(Duration::zero()),
        };
        access.attempt(now);
        access
    }

    /// Begins a try.
    fn attempt(&mut self, now: Instant)
        requires
            old(self).tries < u32::MAX,
        ensures
            *final(self) == old(self).attempted(now),
    {
        self.tries = self.tries + 1;
        match self.kind {
            AccessKind::Read { split } => match WriteRead::begin(self.dev_addr, 1, self.n, split) {
                Ok(exchange) => self.phase = AccessPhase::Exchanging(exchange),
                Err(fault) => self.fail(fault, now),
            },
            AccessKind::Write => {
                if self.n >= 65535 {
                    self.fail(I2cFault::MessageTooLong, now);
                } else {
                    match write_message(self.dev_addr, self.n + 1) {
                        Ok(message) => self.phase = AccessPhase::Writing(message),
                        Err(fault) => self.fail(fault, now),
                    }
                }
            },
        }
    }

    /// Ends a try that failed.
    fn fail(&mut self, status: I2cFault, now: Instant)
        ensures
            *final(self) == old(self).failed(status, now),
    {
        if now.nanos < self.deadline.nanos {
            self.phase = AccessPhase::Pausing(Duration { nanos: RETRY_DELAY_NANOS });
            return;
        }
        let RegisterAccess { reg, n, tries, .. } = *self;
        let error = match self.kind {
            AccessKind::Read { .. } => MfiI2cError::ReadTimeout { reg, n, tries, status },
            AccessKind::Write => MfiI2cError::WriteTimeout { reg, n, tries, status },
        };
        self.phase = AccessPhase::Finished(Err(error));
    }

    /// Goes on after a transfer.
    pub fn transferred(&mut self, outcome: Result<(), I2cFault>, now: Instant)
        requires
            old(self).transferring(),
        ensures
            *final(self) == old(self).after_transfer(outcome, now),
    {
        let mut next = WriteReadStep::Done(outcome);
        if let AccessPhase::Exchanging(mut exchange) = self.phase {
            next = exchange.transferred(outcome);
            self.phase = AccessPhase::Exchanging(exchange);
        }
        match next {
            WriteReadStep::Done(Err(status)) => self.fail(status, now),
            WriteReadStep::Done(Ok(_)) => self.phase = AccessPhase::Finished(Ok(())),
            _ => {},
        }
    }

    /// Goes on after a gap or a pause.
    pub fn slept(&mut self, now: Instant)
        requires
            old(self).sleeping(),
            old(self).tries < u32::MAX,
        ensures
            *final(self) == old(self).after_sleep(now),
    {
        if let AccessPhase::Exchanging(mut exchange) = self.phase {
            exchange.slept();
            self.phase = AccessPhase::Exchanging(exchange);
        } else {
            self.attempt(now);
        }
    }
}

/// The bytes of a message that writes to a register: its address and the data.
pub fn register_write(reg: u8, data: &[u8]) -> (bytes: Vec<u8>)
    requires
        data@.len() < isize::MAX,
    ensures
        bytes@ == seq![reg] + data@,
{
    let mut bytes = Vec::with_capacity(1 + data.len());
    bytes.push(reg);
    bytes.extend_from_slice(data);
    assert(bytes@ =~= seq![reg] + data@);
    bytes
}

/// A failed transfer ends the exchange with its fault: after a selector that failed there is neither
/// a gap nor a read. A selector that went out alone is followed by the gap, and any other transfer
/// that went well is the last one.
pub proof fn law_exchange_order(asked: WriteReadStep, fault: I2cFault)
    requires
        asked.transfers(),
    ensures
        asked.after(Err(fault)) == WriteReadStep::Done(Err(fault)),
        asked.after(Ok(())) is Sleep <==> asked is TransferWrite,
        !(asked is TransferWrite) ==> asked.after(Ok(())) == WriteReadStep::Done(Ok(())),
{
}

/// What happens to an access to a register.
#[derive(Debug, Clone, Copy, PartialEq, Eq)]
pub enum AccessEvent {
    /// A transfer ended.
    Transferred { outcome: Result<(), I2cFault>, now: Instant },
    /// A gap or a pause passed.
    Slept { now: Instant },
}

/// How and when a try ended.
#[derive(Debug, Clone, Copy, PartialEq, Eq)]
pub struct TryEnd {
    pub outcome: Result<(), I2cFault>,
    pub at: Instant,
}

impl TryEnd {
    /// Whether there is no other try: this one succeeded, or the time is up.
    pub open spec fn decides(self, deadline: Instant) -> bool {
        self.outcome is Ok || self.at.nanos >= deadline.nanos
    }
}

impl RegisterAccess {
    /// The access that begins at `now`.
    pub open spec fn begun(dev_addr: u8, reg: u8, n: usize, kind: AccessKind, now: Instant) -> Self {
        (RegisterAccess {
            dev_addr,
            reg,
            n,
            kind,
            deadline: Duration { nanos: (now.nanos + DEADLINE_NANOS) as u128 },
            tries: 0,
            phase: AccessPhase::Pausing(Duration { nanos: 0 }),
        }).attempted(now)
    }

    /// Whether the messages are too long for the bus interface.
    pub open spec fn too_long(self) -> bool {
        self.n > 65535 || self.kind is Write && self.n + 1 > 65535
    }

    /// Whether the event can come now.
    pub open spec fn expects(self, event: AccessEvent) -> bool {
        match event {
            AccessEvent::Transferred { .. } => self.transferring(),
            AccessEvent::Slept { .. } => self.sleeping() && self.tries < u32::MAX,
        }
    }

    /// The access after an event.
    pub open spec fn next(self, event: AccessEvent) -> Self {
        match event {
            AccessEvent::Transferred { outcome, now } => self.after_transfer(outcome, now),
            AccessEvent::Slept { now } => self.after_sleep(now),
        }
    }

    /// Whether a selector is being written alone.
    pub open spec fn selects(self) -> bool {
        self.phase matches AccessPhase::Exchanging(exchange) && exchange.asked is TransferWrite
    }

    /// The try that ends with an event, if one does. A transfer that failed ends it, and so does one
    /// that went well, but for a selector that is written alone. A try whose messages are too long
    /// ends as it begins.
    pub open spec fn ends_try(self, event: AccessEvent) -> Option<TryEnd> {
        match event {
            AccessEvent::Transferred { outcome, now } => if outcome is Ok && self.selects() {
                None
            } else {
                Some(TryEnd { outcome, at: now })
            },
            AccessEvent::Slept { now } => if self.phase is Pausing && self.too_long() {
                Some(TryEnd { outcome: Err(I2cFault::MessageTooLong), at: now })
            } else {
                None
            },
        }
    }

    /// The access after a run of events.
    pub open spec fn after(self, events: Seq<AccessEvent>) -> Self
        decreases events.len(),
    {
        if events.len() == 0 {
            self
        } else {
            self.after(events.drop_last()).next(events.last())
        }
    }

    /// Whether each event of a run comes when it can.
    pub open spec fn allows(self, events: Seq<AccessEvent>) -> bool
        decreases events.len(),
    {
        events.len() > 0 ==> {
            &&& self.allows(events.drop_last())
            &&& self.after(events.drop_last()).expects(events.last())
        }
    }

    /// The tries that ended in a run, for an access that began at `now`.
    pub open spec fn tries_ended(self, now: Instant, events: Seq<AccessEvent>) -> Seq<TryEnd>
        decreases events.len(),
    {
        if events.len() == 0 {
            if self.too_long() {
                seq![TryEnd { outcome: Err(I2cFault::MessageTooLong), at: now }]
            } else {
                Seq::empty()
            }
        } else {
            let before = self.tries_ended(now, events.drop_last());
            match self.after(events.drop_last()).ends_try(events.last()) {
                Some(end) => before.push(end),
                None => before,
            }
        }
    }

    /// The result of an access whose try number `tries` decided.
    pub open spec fn result_of(self, tries: int, end: TryEnd) -> Result<(), MfiI2cError> {
        match end.outcome {
            Ok(()) => Ok(()),
            Err(status) => Err(RegisterAccess { tries: tries as u32, ..self }.timeout(status)),
        }
    }
}

/// Whether the try at `i` is the first that decides.
pub open spec fn decided_at(ends: Seq<TryEnd>, deadline: Instant, i: int) -> bool {
    &&& 0 <= i < ends.len()
    &&& ends[i].decides(deadline)
    &&& forall|j: int| 0 <= j < i ==> !(#[trigger] ends[j]).decides(deadline)
}

/// What a run of an access keeps.
spec fn access_kept(access: RegisterAccess, now: Instant, events: Seq<AccessEvent>) -> bool {
    let state = access.after(events);
    let ends = access.tries_ended(now, events);
    &&& state == (RegisterAccess { tries: state.tries, phase: state.phase, ..access })
    &&& match state.phase {
        AccessPhase::Finished(result) => {
            &&& state.tries == ends.len()
            &&& decided_at(ends, access.deadline, ends.len() - 1)
            &&& result == access.result_of(ends.len() as int, ends.last())
        },
        AccessPhase::Pausing(_) => {
            &&& state.tries == ends.len()
            &&& forall|j: int|
                0 <= j < ends.len() ==> !(#[trigger] ends[j]).decides(access.deadline)
        },
        _ => {
            &&& state.tries == ends.len() + 1
            &&& state.transferring() || state.sleeping()
            &&& !access.too_long()
            &&& forall|j: int|
                0 <= j < ends.len() ==> !(#[trigger] ends[j]).decides(access.deadline)
        },
    }
}

proof fn lemma_access_kept(
    dev_addr: u8,
    reg: u8,
    n: usize,
    kind: AccessKind,
    now: Instant,
    events: Seq<AccessEvent>,
)
    requires
        now.nanos + DEADLINE_NANOS <= MAX_NANOS,
        RegisterAccess::begun(dev_addr, reg, n, kind, now).allows(events),
    ensures
        access_kept(RegisterAccess::begun(dev_addr, reg, n, kind, now), now, events),
    decreases events.len(),
{
    let access = RegisterAccess::begun(dev_addr, reg, n, kind, now);
    if events.len() > 0 {
        let front = events.drop_last();
        lemma_access_kept(dev_addr, reg, n, kind, now, front);
        let state = access.after(front);
        let before = access.tries_ended(now, front);
        let ends = access.tries_ended(now, events);
        assert(forall|j: int| 0 <= j < before.len() ==> ends[j] == before[j]);
        match events.last() {
            AccessEvent::Transferred { outcome, now: at } => {
                let end = TryEnd { outcome, at };
                if state.ends_try(events.last()) is Some {
                    assert(ends == before.push(end));
                    assert(ends.last() == end);
                }
            },
            AccessEvent::Slept { now: at } => {
                let end = TryEnd { outcome: Err(I2cFault::MessageTooLong), at };
                if state.ends_try(events.last()) is Some {
                    assert(ends == before.push(end));
                    assert(ends.last() == end);
                }
            },
        }
    }
}

/// Over any run of transfers and pauses, the first try that succeeds or ends at the deadline or later
/// decides on an access, and nothing happens after it. So an access is `Ok` if and only if some try
/// succeeds and every failure before it came before the deadline. Else its error is the timeout of
/// the first failure at the deadline or later, which counts all tries with that one. While no try
/// decides, the access goes on.
pub proof fn law_first_decisive_try_ends_an_access(
    dev_addr: u8,
    reg: u8,
    n: usize,
    kind: AccessKind,
    now: Instant,
    events: Seq<AccessEvent>,
)
    requires
        now.nanos + DEADLINE_NANOS <= MAX_NANOS,
        RegisterAccess::begun(dev_addr, reg, n, kind, now).allows(events),
    ensures
        ({
            let access = RegisterAccess::begun(dev_addr, reg, n, kind, now);
            let state = access.after(events);
            let ends = access.tries_ended(now, events);
            &&& forall|i: int| #[trigger]
                decided_at(ends, access.deadline, i) ==> {
                    &&& i == ends.len() - 1
                    &&& state.tries == i + 1
                    &&& state.phase == AccessPhase::Finished(access.result_of(i + 1, ends[i]))
                }
            &&& state.phase is Finished ==> decided_at(ends, access.deadline, ends.len() - 1)
            &&& !(state.phase is Finished) ==> state.transferring() || state.sleeping()
        }),
{
    let access = RegisterAccess::begun(dev_addr, reg, n, kind, now);
    lemma_access_kept(dev_addr, reg, n, kind, now, events);
    let ends = access.tries_ended(now, events);
    assert forall|i: int| #[trigger] decided_at(ends, access.deadline, i) implies i == ends.len()
        - 1 && access.after(events).phase is Finished by {
        assert(ends[i].decides(access.deadline));
    }
}

/// An access begins with its first try. A read writes the number of the register in one byte and reads
/// `n` bytes, both at the address of the device: with a gap, the write goes out alone, and the read
/// follows 4 ms after it; without, both go out together. A write goes out as one message with the
/// number of the register before the data. What the bus interface cannot say in 16 bits fails before
/// anything goes out. A try that fails before two seconds are over is followed by another after 5 ms.
pub proof fn law_tries_are_made_of_these_messages(
    dev_addr: u8,
    reg: u8,
    n: usize,
    split: bool,
    now: Instant,
    fault: I2cFault,
    at: Instant,
)
    requires
        now.nanos + 2_000_000_000 <= MAX_NANOS,
    ensures
        ({
            let read = RegisterAccess::begun(dev_addr, reg, n, AccessKind::Read { split }, now);
            let write = RegisterAccess::begun(dev_addr, reg, n, AccessKind::Write, now);
            let selector = I2cMessage { addr: dev_addr as u16, flags: 0, len: 1 };
            let answer = I2cMessage { addr: dev_addr as u16, flags: 1, len: n as u16 };
            let ok = Ok::<(), I2cFault>(());
            &&& read.tries == 1 && write.tries == 1
            &&& n <= 65535 && !split ==> {
                &&& read.phase == AccessPhase::Exchanging(
                    WriteRead { write: selector, read: answer, asked: WriteReadStep::TransferBoth },
                )
                &&& read.after_transfer(ok, at).phase == AccessPhase::Finished(Ok(()))
            }
            &&& n <= 65535 && split ==> {
                let gap = read.after_transfer(ok, at);
                &&& read.phase == AccessPhase::Exchanging(
                    WriteRead { write: selector, read: answer, asked: WriteReadStep::TransferWrite },
                )
                &&& gap.phase == AccessPhase::Exchanging(
                    WriteRead {
                        write: selector,
                        read: answer,
                        asked: WriteReadStep::Sleep(Duration { nanos: 4_000_000 }),
                    },
                )
                &&& gap.after_sleep(at).phase == AccessPhase::Exchanging(
                    WriteRead { write: selector, read: answer, asked: WriteReadStep::TransferRead },
                )
                &&& gap.after_sleep(at).after_transfer(ok, at).phase == AccessPhase::Finished(Ok(()))
            }
            &&& n <= 65534 ==> {
                &&& write.phase == AccessPhase::Writing(
                    I2cMessage { addr: dev_addr as u16, flags: 0, len: (n + 1) as u16 },
                )
                &&& write.after_transfer(ok, at).phase == AccessPhase::Finished(Ok(()))
            }
            &&& n > 65535 ==> read.phase == AccessPhase::Pausing(Duration { nanos: 5_000_000 })
            &&& n > 65534 ==> write.phase == AccessPhase::Pausing(Duration { nanos: 5_000_000 })
            &&& n <= 65535 ==> {
                let failed = read.after_transfer(Err(fault), at);
                &&& at.nanos < now.nanos + 2_000_000_000 ==> failed.phase == AccessPhase::Pausing(
                    Duration { nanos: 5_000_000 },
                ) && failed.after_sleep(at) == (RegisterAccess { tries: 2, ..read })
                &&& at.nanos >= now.nanos + 2_000_000_000 ==> failed.phase == AccessPhase::Finished(
                    Err(MfiI2cError::ReadTimeout { reg, n, tries: 1, status: fault }),
                )
            }
            &&& n <= 65534 ==> {
                let failed = write.after_transfer(Err(fault), at);
                &&& at.nanos < now.nanos + 2_000_000_000 ==> failed.phase == AccessPhase::Pausing(
                    Duration { nanos: 5_000_000 },
                ) && failed.after_sleep(at) == (RegisterAccess { tries: 2, ..write })
                &&& at.nanos >= now.nanos + 2_000_000_000 ==> failed.phase == AccessPhase::Finished(
                    Err(MfiI2cError::WriteTimeout { reg, n, tries: 1, status: fault }),
                )
            }
        }),
{
}

/// The words for a fault: fixed ones, or both counts in decimal, and none for what the system says.
pub proof fn law_faults_have_these_words(code: i32, done: u32, requested: usize)
    ensures
        I2cFault::MessageTooLong.spec_text() == Some("I2C message exceeds 65535 bytes"@),
        I2cFault::TooManyMessages.spec_text() == Some("too many I2C messages"@),
        I2cFault::Os(code).spec_text() is None,
        (I2cFault::Incomplete { done, requested }).spec_text() == Some(
            "incomplete I2C transfer: "@ + decimal(done as nat) + "/"@ + decimal(requested as nat)
                + " messages"@,
        ),
{
}

}
