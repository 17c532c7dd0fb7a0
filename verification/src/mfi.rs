//! The authentication coprocessor: which registers are used in which order, and what its answers mean.

use vstd::prelude::*;

use crate::i2c::{
    register_write, split_selector_for, AccessKind, MfiI2cError, RegisterAccess, DEADLINE_NANOS,
    RETRY_DELAY_NANOS,
};
use crate::time::{Duration, Instant, MAX_NANOS};

verus! {

/// How long to wait for a signature: 10 ms.
pub const SIGNING_DELAY_NANOS: u128 = 10_000_000;

/// How often the size of the certificate is read before it is believed to be wrong.
pub const SIZE_READS: u32 = 100;

/// What the use of the coprocessor asks for.
#[derive(Debug, PartialEq, Eq)]
pub enum MfiAction {
    /// Read so many bytes from a register.
    Read { reg: u8, n: usize },
    /// Write bytes to a register.
    Write { reg: u8, data: Vec<u8> },
    /// Sleep.
    Sleep(Duration),
    /// Stop: this is the result.
    Done(Result<Vec<u8>, MfiI2cError>),
}

/// What an action asks for.
pub enum Ask {
    Read { reg: u8, n: usize },
    Write { reg: u8, data: Seq<u8> },
    Sleep(Duration),
    Done(Result<Seq<u8>, MfiI2cError>),
}

/// The bytes that were read, or the error.
pub open spec fn read_bytes(result: Result<Vec<u8>, MfiI2cError>) -> Result<Seq<u8>, MfiI2cError> {
    match result {
        Ok(bytes) => Ok(bytes@),
        Err(error) => Err(error),
    }
}

impl View for MfiAction {
    type V = Ask;

    open spec fn view(&self) -> Ask {
        match *self {
            MfiAction::Read { reg, n } => Ask::Read { reg, n },
            MfiAction::Write { reg, data } => Ask::Write { reg, data: data@ },
            MfiAction::Sleep(span) => Ask::Sleep(span),
            MfiAction::Done(result) => Ask::Done(read_bytes(result)),
        }
    }
}

/// Where in its use the coprocessor is: what was asked for last.
#[derive(Debug, Clone, Copy, PartialEq, Eq, Structural)]
pub enum MfiPhase {
    Idle,
    /// Reading the size of the certificate, after so many reads of it.
    CertificateSize { reads: u32 },
    /// Waiting after a size that makes no sense.
    CertificatePause { reads: u32 },
    Certificate { size: usize },
    /// Writing the length of the challenge.
    ChallengeLength,
    Challenge,
    /// Writing the command to sign.
    SignCommand,
    /// Waiting for the signature.
    SignPause,
    SignStatus,
    /// Reading the error code.
    SignError { status: u8 },
    SignatureSize,
    Signature { size: usize },
}

/// The number that two bytes stand for, the most significant byte first.
pub open spec fn be_u16(bytes: Seq<u8>) -> int {
    bytes[0] * 0x100 + bytes[1]
}

/// Whether a certificate can have this size.
pub open spec fn certificate_size_ok(size: int) -> bool {
    64 <= size <= 1024
}

/// Whether a signature can have this size.
pub open spec fn signature_size_ok(size: int) -> bool {
    1 <= size <= 0x80
}

/// The state of the coprocessor.
pub struct MfiState {
    pub dev_addr: u8,
    pub split_selector: bool,
    pub certificate: Seq<u8>,
    /// The challenge that waits to be written.
    pub challenge: Seq<u8>,
    pub phase: MfiPhase,
}

impl MfiState {
    /// The size of the certificate is not read too often; only what has a size that makes sense is
    /// read and kept; a certificate that is kept is not read again; and a challenge waits only for its
    /// length to be written.
    pub open spec fn wf(self) -> bool {
        &&& self.certificate.len() == 0 || certificate_size_ok(self.certificate.len() as int)
        &&& self.phase is ChallengeLength || self.challenge.len() == 0
        &&& match self.phase {
            MfiPhase::CertificateSize { reads } => reads < SIZE_READS && self.certificate.len()
                == 0,
            MfiPhase::CertificatePause { reads } => reads < SIZE_READS && self.certificate.len()
                == 0,
            MfiPhase::Certificate { size } => certificate_size_ok(size as int)
                && self.certificate.len() == 0,
            MfiPhase::Signature { size } => signature_size_ok(size as int),
            _ => true,
        }
    }

    /// How many bytes are being read, if any.
    pub open spec fn reading(self) -> Option<usize> {
        match self.phase {
            MfiPhase::CertificateSize { .. } => Some(2),
            MfiPhase::Certificate { size } => Some(size),
            MfiPhase::SignStatus => Some(1),
            MfiPhase::SignError { .. } => Some(1),
            MfiPhase::SignatureSize => Some(2),
            MfiPhase::Signature { size } => Some(size),
            _ => None,
        }
    }

    /// Whether bytes are being written.
    pub open spec fn writing(self) -> bool {
        self.phase is ChallengeLength || self.phase is Challenge || self.phase is SignCommand
    }

    /// Whether the device sleeps.
    pub open spec fn sleeping(self) -> bool {
        self.phase is CertificatePause || self.phase is SignPause
    }

    /// The state in another phase.
    pub open spec fn at(self, phase: MfiPhase) -> MfiState {
        MfiState { phase, ..self }
    }

    /// What follows a request for the certificate: the one that is kept, or a read of its size.
    pub open spec fn certificate_asked(self) -> (MfiState, Ask) {
        if self.certificate.len() > 0 {
            (self, Ask::Done(Ok(self.certificate)))
        } else {
            (self.at(MfiPhase::CertificateSize { reads: 0 }), Ask::Read { reg: 0x30, n: 2 })
        }
    }

    /// What follows a challenge: its length is written in two bytes.
    pub open spec fn challenged(self, challenge: Seq<u8>) -> (MfiState, Ask) {
        let len = challenge.len() as int;
        (
            MfiState { challenge, ..self.at(MfiPhase::ChallengeLength) },
            Ask::Write {
                reg: 0x20,
                data: seq![(len / 0x100 % 0x100) as u8, (len % 0x100) as u8],
            },
        )
    }

    /// What follows a write: the challenge, the command to sign, and the wait for the signature. A
    /// failure ends it all.
    pub open spec fn after_write(self, result: Result<(), MfiI2cError>) -> (MfiState, Ask) {
        match (result, self.phase) {
            (Err(error), _) => (
                MfiState { challenge: Seq::empty(), ..self.at(MfiPhase::Idle) },
                Ask::Done(Err(error)),
            ),
            (Ok(_), MfiPhase::ChallengeLength) => (
                MfiState { challenge: Seq::empty(), ..self.at(MfiPhase::Challenge) },
                Ask::Write { reg: 0x21, data: self.challenge },
            ),
            (Ok(_), MfiPhase::Challenge) => (
                self.at(MfiPhase::SignCommand),
                Ask::Write { reg: 0x10, data: seq![0x01u8] },
            ),
            (Ok(_), _) => (
                self.at(MfiPhase::SignPause),
                Ask::Sleep(Duration { nanos: SIGNING_DELAY_NANOS }),
            ),
        }
    }

    /// What follows a sleep: the next read of the size, or of the status.
    pub open spec fn after_sleep(self) -> (MfiState, Ask) {
        match self.phase {
            MfiPhase::CertificatePause { reads } => (
                self.at(MfiPhase::CertificateSize { reads }),
                Ask::Read { reg: 0x30, n: 2 },
            ),
            _ => (self.at(MfiPhase::SignStatus), Ask::Read { reg: 0x10, n: 1 }),
        }
    }

    /// What follows a read of the size of the certificate, after so many reads of it before: the
    /// certificate, another read after a pause, or the end.
    pub open spec fn after_size(self, reads: u32, size: int) -> (MfiState, Ask) {
        if certificate_size_ok(size) {
            (
                self.at(MfiPhase::Certificate { size: size as usize }),
                Ask::Read { reg: 0x31, n: size as usize },
            )
        } else if reads + 1 < SIZE_READS {
            (
                self.at(MfiPhase::CertificatePause { reads: (reads + 1) as u32 }),
                Ask::Sleep(Duration { nanos: RETRY_DELAY_NANOS }),
            )
        } else {
            (self.at(MfiPhase::Idle), Ask::Done(Err(MfiI2cError::UnexpectedSize(size as usize))))
        }
    }

    /// What follows a read. A failure ends it all, and so does a size that makes no sense; the
    /// certificate is kept.
    pub open spec fn after_read(self, result: Result<Seq<u8>, MfiI2cError>) -> (MfiState, Ask) {
        match (result, self.phase) {
            (Err(error), _) => (self.at(MfiPhase::Idle), Ask::Done(Err(error))),
            (Ok(bytes), MfiPhase::CertificateSize { reads }) => self.after_size(
                reads,
                be_u16(bytes),
            ),
            (Ok(bytes), MfiPhase::Certificate { .. }) => (
                MfiState { certificate: bytes, ..self.at(MfiPhase::Idle) },
                Ask::Done(Ok(bytes)),
            ),
            (Ok(bytes), MfiPhase::SignStatus) => if bytes[0] >= 0x80 {
                (
                    self.at(MfiPhase::SignError { status: bytes[0] }),
                    Ask::Read { reg: 0x05, n: 1 },
                )
            } else {
                (self.at(MfiPhase::SignatureSize), Ask::Read { reg: 0x11, n: 2 })
            },
            (Ok(bytes), MfiPhase::SignError { status }) => (
                self.at(MfiPhase::Idle),
                Ask::Done(Err(MfiI2cError::SigningError { status, code: bytes[0] })),
            ),
            (Ok(bytes), MfiPhase::SignatureSize) => {
                let size = be_u16(bytes);
                if signature_size_ok(size) {
                    (
                        self.at(MfiPhase::Signature { size: size as usize }),
                        Ask::Read { reg: 0x12, n: size as usize },
                    )
                } else {
                    (
                        self.at(MfiPhase::Idle),
                        Ask::Done(Err(MfiI2cError::UnexpectedSize(size as usize))),
                    )
                }
            },
            (Ok(bytes), _) => (self.at(MfiPhase::Idle), Ask::Done(Ok(bytes))),
        }
    }

    /// The access to a register that is asked for, with the bytes that it writes, if one is.
    pub open spec fn access_of(self, ask: Ask, now: Instant) -> Option<(RegisterAccess, Seq<u8>)> {
        match ask {
            Ask::Read { reg, n } => Some(
                (
                    RegisterAccess::begun(
                        self.dev_addr,
                        reg,
                        n,
                        AccessKind::Read { split: self.split_selector },
                        now,
                    ),
                    seq![reg],
                ),
            ),
            Ask::Write { reg, data } => Some(
                (
                    RegisterAccess::begun(
                        self.dev_addr,
                        reg,
                        data.len() as usize,
                        AccessKind::Write,
                        now,
                    ),
                    seq![reg] + data,
                ),
            ),
            _ => None,
        }
    }
}

fn be_size(bytes: &Vec<u8>) -> (size: usize)
    requires
        bytes@.len() == 2,
    ensures
        size == be_u16(bytes@),
{
    bytes[0] as usize * 0x100 + bytes[1] as usize
}

/// The coprocessor, with the certificate once that was read.
#[derive(Debug)]
pub struct MfiDeviceI2C {
    pub dev_addr: u8,
    pub split_selector: bool,
    pub certificate: Vec<u8>,
    pub challenge: Vec<u8>,
    pub phase: MfiPhase,
}

impl View for MfiDeviceI2C {
    type V = MfiState;

    open spec fn view(&self) -> MfiState {
        MfiState {
            dev_addr: self.dev_addr,
            split_selector: self.split_selector,
            certificate: self.certificate@,
            challenge: self.challenge@,
            phase: self.phase,
        }
    }
}

impl MfiDeviceI2C {
    /// The device on this bus, at this address.
    pub fn new(bus_offset: u32, dev_addr: u8) -> (device: Self)
        ensures
            device@.wf(),
            device@ == (MfiState {
                dev_addr,
                split_selector: bus_offset == 0 && dev_addr == 0x10,
                certificate: Seq::empty(),
                challenge: Seq::empty(),
                phase: MfiPhase::Idle,
            }),
    {
        MfiDeviceI2C {
            dev_addr,
            split_selector: split_selector_for(bus_offset, dev_addr),
            certificate: Vec::new(),
            challenge: Vec::new(),
            phase: MfiPhase::Idle,
        }
    }

    /// Begins to read the certificate, or gives the one that was read before.
    pub fn i2c_read_certificate(&mut self) -> (action: MfiAction)
        requires
            old(self)@.wf(),
            old(self).phase is Idle,
        ensures
            final(self)@.wf(),
            (final(self)@, action@) == old(self)@.certificate_asked(),
    {
        if self.certificate.len() > 0 {
            let certificate = self.certificate.clone();
            assert(certificate@ =~= self.certificate@);
            return MfiAction::Done(Ok(certificate));
        }
        self.phase = MfiPhase::CertificateSize { reads: 0 };
        MfiAction::Read { reg: 0x30, n: 2 }
    }

    /// Begins to have a challenge signed.
    pub fn i2c_generate_challenge_response(&mut self, challenge: &[u8]) -> (action: MfiAction)
        requires
            old(self)@.wf(),
            old(self).phase is Idle,
        ensures
            final(self)@.wf(),
            (final(self)@, action@) == old(self)@.challenged(challenge@),
    {
        let len: usize = challenge.len();
        let data = vec![(len / 0x100 % 0x100) as u8, (len % 0x100) as u8];
        assert(data@ =~= seq![(len / 0x100 % 0x100) as u8, (len % 0x100) as u8]);
        let mut kept = Vec::with_capacity(len);
        kept.extend_from_slice(challenge);
        assert(kept@ =~= challenge@);
        self.challenge = kept;
        self.phase = MfiPhase::ChallengeLength;
        MfiAction::Write { reg: 0x20, data }
    }

    /// Goes on after a write.
    pub fn wrote(&mut self, result: Result<(), MfiI2cError>) -> (action: MfiAction)
        requires
            old(self)@.wf(),
            old(self)@.writing(),
        ensures
            final(self)@.wf(),
            (final(self)@, action@) == old(self)@.after_write(result),
    {
        if let Err(error) = result {
            self.challenge = Vec::new();
            self.phase = MfiPhase::Idle;
            return MfiAction::Done(Err(error));
        }
        match self.phase {
            MfiPhase::ChallengeLength => {
                let mut data = Vec::new();
                std::mem::swap(&mut data, &mut self.challenge);
                self.phase = MfiPhase::Challenge;
                MfiAction::Write { reg: 0x21, data }
            },
            MfiPhase::Challenge => {
                self.phase = MfiPhase::SignCommand;
                let data = vec![0x01u8];
                assert(data@ =~= seq![0x01u8]);
                MfiAction::Write { reg: 0x10, data }
            },
            _ => {
                self.phase = MfiPhase::SignPause;
                MfiAction::Sleep(Duration { nanos: SIGNING_DELAY_NANOS })
            },
        }
    }

    /// Goes on after a sleep.
    pub fn slept(&mut self) -> (action: MfiAction)
        requires
            old(self)@.wf(),
            old(self)@.sleeping(),
        ensures
            final(self)@.wf(),
            (final(self)@, action@) == old(self)@.after_sleep(),
    {
        if let MfiPhase::CertificatePause { reads } = self.phase {
            self.phase = MfiPhase::CertificateSize { reads };
            return MfiAction::Read { reg: 0x30, n: 2 };
        }
        self.phase = MfiPhase::SignStatus;
        MfiAction::Read { reg: 0x10, n: 1 }
    }

    fn size_read(&mut self, reads: u32, size: usize) -> (action: MfiAction)
        requires
            old(self)@.wf(),
            old(self).phase == (MfiPhase::CertificateSize { reads }),
        ensures
            final(self)@.wf(),
            (final(self)@, action@) == old(self)@.after_size(reads, size as int),
    {
        if 64 <= size && size <= 1024 {
            self.phase = MfiPhase::Certificate { size };
            return MfiAction::Read { reg: 0x31, n: size };
        }
        if reads + 1 < SIZE_READS {
            self.phase = MfiPhase::CertificatePause { reads: reads + 1 };
            return MfiAction::Sleep(Duration { nanos: RETRY_DELAY_NANOS });
        }
        self.phase = MfiPhase::Idle;
        MfiAction::Done(Err(MfiI2cError::UnexpectedSize(size)))
    }

    /// Goes on after a read.
    pub fn read(&mut self, result: Result<Vec<u8>, MfiI2cError>) -> (action: MfiAction)
        requires
            old(self)@.wf(),
            old(self)@.reading() is Some,
            result matches Ok(bytes) ==> bytes@.len() == old(self)@.reading()->0,
        ensures
            final(self)@.wf(),
            (final(self)@, action@) == old(self)@.after_read(read_bytes(result)),
    {
        let bytes = match result {
            Err(error) => {
                self.phase = MfiPhase::Idle;
                return MfiAction::Done(Err(error));
            },
            Ok(bytes) => bytes,
        };
        match self.phase {
            MfiPhase::CertificateSize { reads } => {
                let size: usize = be_size(&bytes);
                self.size_read(reads, size)
            },
            MfiPhase::Certificate { .. } => {
                let kept = bytes.clone();
                assert(kept@ =~= bytes@);
                self.certificate = kept;
                self.phase = MfiPhase::Idle;
                MfiAction::Done(Ok(bytes))
            },
            MfiPhase::SignStatus => {
                let status: u8 = bytes[0];
                assert((status & 0x80 != 0) == (status >= 0x80)) by (bit_vector);
                if status & 0x80 != 0 {
                    self.phase = MfiPhase::SignError { status };
                    return MfiAction::Read { reg: 0x05, n: 1 };
                }
                self.phase = MfiPhase::SignatureSize;
                MfiAction::Read { reg: 0x11, n: 2 }
            },
            MfiPhase::SignError { status } => {
                self.phase = MfiPhase::Idle;
                MfiAction::Done(Err(MfiI2cError::SigningError { status, code: bytes[0] }))
            },
            MfiPhase::SignatureSize => {
                let size: usize = be_size(&bytes);
                if size == 0 || size > 0x80 {
                    self.phase = MfiPhase::Idle;
                    return MfiAction::Done(Err(MfiI2cError::UnexpectedSize(size)));
                }
                self.phase = MfiPhase::Signature { size };
                MfiAction::Read { reg: 0x12, n: size }
            },
            _ => {
                self.phase = MfiPhase::Idle;
                MfiAction::Done(Ok(bytes))
            },
        }
    }

    /// The access to a register that an action asks for, and the bytes that it writes: the address of
    /// the register, and behind it the data, if there is any.
    pub fn access_for(&self, action: &MfiAction, now: Instant) -> (begun: Option<
        (RegisterAccess, Vec<u8>),
    >)
        requires
            now.nanos + DEADLINE_NANOS <= MAX_NANOS,
            action@ matches Ask::Write { reg, data } ==> data.len() < isize::MAX,
        ensures
            match begun {
                Some((access, bytes)) => self@.access_of(action@, now) == Some((access, bytes@)),
                None => self@.access_of(action@, now) is None,
            },
    {
        match action {
            MfiAction::Read { reg, n } => {
                let kind = AccessKind::Read { split: self.split_selector };
                let bytes = vec![*reg];
                assert(bytes@ =~= seq![*reg]);
                Some((RegisterAccess::begin(self.dev_addr, *reg, *n, kind, now), bytes))
            },
            MfiAction::Write { reg, data } => {
                let access = RegisterAccess::begin(
                    self.dev_addr,
                    *reg,
                    data.len(),
                    AccessKind::Write,
                    now,
                );
                Some((access, register_write(*reg, data.as_slice())))
            },
            _ => None,
        }
    }
}

/// What happens to the coprocessor.
pub enum MfiEvent {
    /// The certificate is asked for.
    Certificate,
    /// A challenge is to be signed.
    Challenge(Seq<u8>),
    Wrote(Result<(), MfiI2cError>),
    Slept,
    Read(Result<Seq<u8>, MfiI2cError>),
}

impl MfiState {
    /// Whether the event can come now.
    pub open spec fn expects(self, event: MfiEvent) -> bool {
        match event {
            MfiEvent::Certificate => self.phase is Idle,
            MfiEvent::Challenge(_) => self.phase is Idle,
            MfiEvent::Wrote(_) => self.writing(),
            MfiEvent::Slept => self.sleeping(),
            MfiEvent::Read(result) => self.reading() is Some && (result matches Ok(bytes)
                ==> bytes.len() == self.reading()->0),
        }
    }

    /// The state after an event, and what is asked for then.
    pub open spec fn next(self, event: MfiEvent) -> (MfiState, Ask) {
        match event {
            MfiEvent::Certificate => self.certificate_asked(),
            MfiEvent::Challenge(challenge) => self.challenged(challenge),
            MfiEvent::Wrote(result) => self.after_write(result),
            MfiEvent::Slept => self.after_sleep(),
            MfiEvent::Read(result) => self.after_read(result),
        }
    }

    /// The state after a run of events.
    pub open spec fn after(self, events: Seq<MfiEvent>) -> MfiState
        decreases events.len(),
    {
        if events.len() == 0 {
            self
        } else {
            self.after(events.drop_last()).next(events.last()).0
        }
    }

    /// Whether each event of a run comes when it can.
    pub open spec fn allows(self, events: Seq<MfiEvent>) -> bool
        decreases events.len(),
    {
        events.len() > 0 ==> {
            &&& self.allows(events.drop_last())
            &&& self.after(events.drop_last()).expects(events.last())
        }
    }

    /// The state once the certificate was asked for and its size read as often as the device asked,
    /// with these answers at hand, and what is asked for then. Answers that the device does not ask
    /// for are left.
    pub open spec fn after_sizes(self, answers: Seq<Seq<u8>>) -> (MfiState, Ask)
        decreases answers.len(),
    {
        if answers.len() == 0 {
            self.certificate_asked()
        } else {
            let (state, ask) = self.after_sizes(answers.drop_last());
            match state.phase {
                MfiPhase::CertificateSize { .. } => state.after_read(Ok(answers.last())),
                MfiPhase::CertificatePause { .. } => state.after_sleep().0.after_read(
                    Ok(answers.last()),
                ),
                _ => (state, ask),
            }
        }
    }
}

/// Whether the answer at `i` is the first size of a certificate that makes sense.
pub open spec fn first_size_at(answers: Seq<Seq<u8>>, i: int) -> bool {
    &&& 0 <= i < answers.len()
    &&& certificate_size_ok(be_u16(answers[i]))
    &&& forall|j: int| 0 <= j < i ==> !certificate_size_ok(be_u16(#[trigger] answers[j]))
}

/// Whether none of the answers, or of the first hundred, is a size of a certificate that makes sense.
pub open spec fn no_size_in(answers: Seq<Seq<u8>>) -> bool {
    forall|j: int|
        0 <= j < answers.len() && j < SIZE_READS ==> !certificate_size_ok(
            be_u16(#[trigger] answers[j]),
        )
}

proof fn lemma_sizes(state: MfiState, answers: Seq<Seq<u8>>)
    requires
        state.wf(),
        state.phase is Idle,
        state.certificate.len() == 0,
        no_size_in(answers),
    ensures
        state.after_sizes(answers) == (if answers.len() == 0 {
            (state.at(MfiPhase::CertificateSize { reads: 0 }), Ask::Read { reg: 0x30, n: 2 })
        } else if answers.len() < SIZE_READS {
            (
                state.at(MfiPhase::CertificatePause { reads: answers.len() as u32 }),
                Ask::Sleep(Duration { nanos: RETRY_DELAY_NANOS }),
            )
        } else {
            (
                state,
                Ask::Done(
                    Err(MfiI2cError::UnexpectedSize(be_u16(answers[SIZE_READS - 1]) as usize)),
                ),
            )
        }),
    decreases answers.len(),
{
    if answers.len() > 0 {
        let front = answers.drop_last();
        assert(no_size_in(front)) by {
            assert forall|j: int|
                0 <= j < front.len() && j < SIZE_READS implies !certificate_size_ok(
                be_u16(#[trigger] front[j]),
            ) by {
                assert(front[j] == answers[j]);
            }
        }
        lemma_sizes(state, front);
        let last = answers[answers.len() - 1];
        assert(answers.len() <= SIZE_READS ==> !certificate_size_ok(be_u16(last)));
    }
}

proof fn lemma_found_size(state: MfiState, answers: Seq<Seq<u8>>, i: int)
    requires
        state.wf(),
        state.phase is Idle,
        state.certificate.len() == 0,
        first_size_at(answers, i),
        i < SIZE_READS,
    ensures
        ({
            let size = be_u16(answers[i]) as usize;
            state.after_sizes(answers) == (
                state.at(MfiPhase::Certificate { size }),
                Ask::Read { reg: 0x31, n: size },
            )
        }),
    decreases answers.len(),
{
    let front = answers.drop_last();
    if i < answers.len() - 1 {
        assert forall|j: int| 0 <= j < i implies !certificate_size_ok(
            be_u16(#[trigger] front[j]),
        ) by {
            assert(front[j] == answers[j]);
        }
        assert(first_size_at(front, i));
        lemma_found_size(state, front, i);
    } else {
        assert(no_size_in(front)) by {
            assert forall|j: int| 0 <= j < front.len() implies !certificate_size_ok(
                be_u16(#[trigger] front[j]),
            ) by {
                assert(front[j] == answers[j]);
            }
        }
        lemma_sizes(state, front);
    }
}

proof fn lemma_certificate_kept(state: MfiState, events: Seq<MfiEvent>)
    requires
        state.wf(),
        state.certificate.len() > 0,
        state.allows(events),
    ensures
        state.after(events).wf(),
        state.after(events).certificate == state.certificate,
    decreases events.len(),
{
    if events.len() > 0 {
        lemma_certificate_kept(state, events.drop_last());
    }
}

/// A certificate that is kept stays, whatever else the coprocessor is used for, and each request for
/// it is answered with it at once, without the bus.
pub proof fn law_certificate_is_kept(state: MfiState, events: Seq<MfiEvent>)
    requires
        state.wf(),
        state.certificate.len() > 0,
        state.allows(events),
    ensures
        state.after(events).certificate == state.certificate,
        state.after(events).certificate_asked() == (
            state.after(events),
            Ask::Done(Ok(state.certificate)),
        ),
{
    lemma_certificate_kept(state, events);
}

/// Over any sizes read, the certificate has the first size that makes sense among a hundred: so many
/// bytes are read, given and kept, and every later request gives them without the bus, whatever else
/// happened. If there is none, the error carries the last of the hundred and nothing is kept.
pub proof fn law_certificate_has_the_first_size_that_makes_sense(
    state: MfiState,
    answers: Seq<Seq<u8>>,
    bytes: Seq<u8>,
    events: Seq<MfiEvent>,
)
    requires
        state.wf(),
        state.phase is Idle,
        state.certificate.len() == 0,
    ensures
        forall|i: int| #[trigger]
            first_size_at(answers, i) && i < SIZE_READS ==> {
                let size = be_u16(answers[i]) as usize;
                let (asking, ask) = state.after_sizes(answers);
                let (kept, result) = asking.after_read(Ok(bytes));
                let later = kept.after(events);
                &&& asking == state.at(MfiPhase::Certificate { size })
                &&& ask == (Ask::Read { reg: 0x31, n: size })
                &&& kept == (MfiState { certificate: bytes, ..state })
                &&& result == Ask::Done(Ok(bytes))
                &&& bytes.len() == size && kept.allows(events) ==> later.certificate_asked() == (
                    later,
                    Ask::Done(Ok(bytes)),
                )
            },
        no_size_in(answers) && answers.len() >= SIZE_READS ==> state.after_sizes(answers) == (
            state,
            Ask::Done(Err(MfiI2cError::UnexpectedSize(be_u16(answers[SIZE_READS - 1]) as usize))),
        ),
        no_size_in(answers) && answers.len() < SIZE_READS ==> {
            let (asking, ask) = state.after_sizes(answers);
            &&& asking.certificate == state.certificate
            &&& ask == (if answers.len() == 0 {
                Ask::Read { reg: 0x30, n: 2 }
            } else {
                Ask::Sleep(Duration { nanos: RETRY_DELAY_NANOS })
            })
        },
{
    assert forall|i: int| #[trigger] first_size_at(answers, i) && i < SIZE_READS implies {
        let size = be_u16(answers[i]) as usize;
        let (asking, ask) = state.after_sizes(answers);
        let kept = asking.after_read(Ok(bytes)).0;
        let later = kept.after(events);
        &&& asking == state.at(MfiPhase::Certificate { size })
        &&& ask == (Ask::Read { reg: 0x31, n: size })
        &&& bytes.len() == size && kept.allows(events) ==> later.certificate_asked() == (
            later,
            Ask::Done(Ok(bytes)),
        )
    } by {
        lemma_found_size(state, answers, i);
        let kept = state.after_sizes(answers).0.after_read(Ok(bytes)).0;
        if bytes.len() == be_u16(answers[i]) && kept.allows(events) {
            law_certificate_is_kept(kept, events);
        }
    }
    if no_size_in(answers) {
        lemma_sizes(state, answers);
    }
}

/// Signing writes the length of the challenge, the challenge and the command, waits, and reads the
/// status. A status with the highest bit ends in the error code, any other in the size of the
/// signature and, if that makes sense, the signature.
pub proof fn law_signing_order(
    state: MfiState,
    challenge: Seq<u8>,
    status: u8,
    size: Seq<u8>,
    last: Seq<u8>,
)
    requires
        state.wf(),
        state.phase is Idle,
    ensures
        ({
            let len = challenge.len() as int;
            let ok = Ok::<(), MfiI2cError>(());
            let a = state.challenged(challenge);
            let b = a.0.after_write(ok);
            let c = b.0.after_write(ok);
            let d = c.0.after_write(ok);
            let e = d.0.after_sleep();
            let f = e.0.after_read(Ok(seq![status]));
            let g = f.0.after_read(Ok(size));
            let h = g.0.after_read(Ok(last));
            &&& a.1 == (Ask::Write {
                reg: 0x20,
                data: seq![(len / 0x100 % 0x100) as u8, (len % 0x100) as u8],
            })
            &&& b.1 == (Ask::Write { reg: 0x21, data: challenge })
            &&& c.1 == (Ask::Write { reg: 0x10, data: seq![0x01u8] })
            &&& d.1 == Ask::Sleep(Duration { nanos: SIGNING_DELAY_NANOS })
            &&& e.1 == (Ask::Read { reg: 0x10, n: 1 })
            &&& status >= 0x80 ==> {
                &&& f.1 == (Ask::Read { reg: 0x05, n: 1 })
                &&& g == (state, Ask::Done(Err(MfiI2cError::SigningError { status, code: size[0] })))
            }
            &&& status < 0x80 ==> f.1 == (Ask::Read { reg: 0x11, n: 2 })
            &&& status < 0x80 && signature_size_ok(be_u16(size)) ==> {
                &&& g.1 == (Ask::Read { reg: 0x12, n: be_u16(size) as usize })
                &&& h == (state, Ask::Done(Ok(last)))
            }
            &&& status < 0x80 && !signature_size_ok(be_u16(size)) ==> g == (
                state,
                Ask::Done(Err(MfiI2cError::UnexpectedSize(be_u16(size) as usize))),
            )
        }),
{
    assert(state.challenge =~= Seq::<u8>::empty());
    assert(seq![status][0] == status);
}

/// After a challenge was written and signed, the status decides: from 128 on, the error code of register
/// 5 is the result. Else the size of the signature follows in two bytes, the most significant one
/// first. A size from 1 to 128 makes so many bytes be read from register 0x12, which are the result;
/// zero and every larger size is an error that carries it. In the end the coprocessor waits again.
pub proof fn law_signature_has_1_to_128_bytes(
    state: MfiState,
    challenge: Seq<u8>,
    status: u8,
    code: u8,
    high: u8,
    low: u8,
    signature: Seq<u8>,
)
    requires
        state.wf(),
        state.phase is Idle,
    ensures
        ({
            let ok = Ok::<(), MfiI2cError>(());
            let signing = state.challenged(challenge).0.after_write(ok).0.after_write(ok).0.after_write(
                ok,
            );
            let slept = signing.0.after_sleep();
            let (told, next) = slept.0.after_read(Ok(seq![status]));
            let size = 256 * high + low;
            let (sized, ask) = told.after_read(Ok(seq![high, low]));
            &&& signing.1 == Ask::Sleep(Duration { nanos: 10_000_000 })
            &&& slept.1 == (Ask::Read { reg: 0x10, n: 1 })
            &&& status >= 128 ==> {
                &&& next == (Ask::Read { reg: 0x05, n: 1 })
                &&& told.after_read(Ok(seq![code])) == (
                    state,
                    Ask::Done(Err(MfiI2cError::SigningError { status, code })),
                )
            }
            &&& status < 128 ==> next == (Ask::Read { reg: 0x11, n: 2 })
            &&& status < 128 && 1 <= size <= 128 ==> {
                &&& ask == (Ask::Read { reg: 0x12, n: size as usize })
                &&& sized.after_read(Ok(signature)) == (state, Ask::Done(Ok(signature)))
            }
            &&& status < 128 && (size == 0 || size > 128) ==> (sized, ask) == (
                state,
                Ask::Done(Err(MfiI2cError::UnexpectedSize(size as usize))),
            )
        }),
{
    assert(seq![status][0] == status);
    assert(seq![code][0] == code);
    assert(seq![high, low][0] == high && seq![high, low][1] == low);
    assert(state.challenge =~= Seq::<u8>::empty());
}

/// Over any sizes read, in two bytes each with the most significant one first, the certificate has the
/// first from 64 to 1024 among a hundred: so many bytes are read from register 0x31, given and kept.
/// If there is none among a hundred, the error carries the last of these and nothing is kept; and as
/// long as there is none among fewer, the size is read again after 5 ms.
pub proof fn law_certificate_has_64_to_1024_bytes(
    state: MfiState,
    answers: Seq<Seq<u8>>,
    bytes: Seq<u8>,
    i: int,
)
    requires
        state.wf(),
        state.phase is Idle,
        state.certificate.len() == 0,
        0 <= i < answers.len(),
        i < 100,
        forall|j: int|
            0 <= j < i ==> {
                let size = 256 * (#[trigger] answers[j])[0] + answers[j][1];
                size < 64 || size > 1024
            },
    ensures
        ({
            let size = 256 * answers[i][0] + answers[i][1];
            let (asking, ask) = state.after_sizes(answers.take(i + 1));
            &&& state.certificate_asked().1 == (Ask::Read { reg: 0x30, n: 2 })
            &&& 64 <= size <= 1024 ==> {
                &&& ask == (Ask::Read { reg: 0x31, n: size as usize })
                &&& asking.after_read(Ok(bytes)) == (
                    MfiState { certificate: bytes, ..state },
                    Ask::Done(Ok(bytes)),
                )
            }
            &&& (size < 64 || size > 1024) && i < 99 ==> {
                &&& ask == Ask::Sleep(Duration { nanos: 5_000_000 })
                &&& asking.certificate.len() == 0
                &&& asking.after_sleep().1 == (Ask::Read { reg: 0x30, n: 2 })
            }
            &&& (size < 64 || size > 1024) && i == 99 ==> (asking, ask) == (
                state,
                Ask::Done(Err(MfiI2cError::UnexpectedSize(size as usize))),
            )
        }),
{
    let seen = answers.take(i + 1);
    assert forall|j: int| 0 <= j < i implies !certificate_size_ok(be_u16(#[trigger] seen[j])) by {
        assert(seen[j] == answers[j]);
    }
    assert(seen[i] == answers[i]);
    if certificate_size_ok(be_u16(answers[i])) {
        assert(first_size_at(seen, i));
        lemma_found_size(state, seen, i);
    } else {
        assert(no_size_in(seen));
        lemma_sizes(state, seen);
    }
}

/// A certificate that is there is given at once.
pub proof fn law_certificate_is_given_at_once(state: MfiState)
    requires
        state.certificate.len() > 0,
    ensures
        state.certificate_asked() == (state, Ask::Done(Ok(state.certificate))),
{
}

/// A write or a read that fails ends it all with its error: nothing more is asked for, what was kept
/// stays kept, and the coprocessor can be used again.
pub proof fn law_failures_end_everything(state: MfiState, error: MfiI2cError)
    requires
        state.wf(),
    ensures
        state.writing() ==> state.after_write(Err(error)) == (
            MfiState { challenge: Seq::empty(), phase: MfiPhase::Idle, ..state },
            Ask::Done(Err(error)),
        ),
        state.reading() is Some ==> state.after_read(Err(error)) == (
            MfiState { challenge: Seq::empty(), phase: MfiPhase::Idle, ..state },
            Ask::Done(Err(error)),
        ),
{
    if state.reading() is Some {
        assert(state.challenge =~= Seq::<u8>::empty());
    }
}

/// A read goes to the register that was asked for, with the gap that the bus needs; a write carries the
/// number of the register and the data. Each begins to be tried at once and may be tried for two
/// seconds.
pub proof fn law_accesses_reach_their_register(state: MfiState, reg: u8, n: usize, data: Seq<u8>, now: Instant)
    requires
        now.nanos + 2_000_000_000 <= MAX_NANOS,
        data.len() <= usize::MAX,
    ensures
        state.access_of(Ask::Read { reg, n }, now) matches Some((access, bytes)) && {
            &&& bytes == seq![reg]
            &&& access.dev_addr == state.dev_addr
            &&& access.reg == reg
            &&& access.n == n
            &&& access.kind == (AccessKind::Read { split: state.split_selector })
            &&& access.deadline.nanos == now.nanos + 2_000_000_000
            &&& access.tries == 1
        },
        state.access_of(Ask::Write { reg, data }, now) matches Some((access, bytes)) && {
            &&& bytes == seq![reg] + data
            &&& access.dev_addr == state.dev_addr
            &&& access.reg == reg
            &&& access.n == data.len()
            &&& access.kind == AccessKind::Write
            &&& access.deadline.nanos == now.nanos + 2_000_000_000
            &&& access.tries == 1
        },
{
}

}
