//! The steps of the post-quantum handshake, each a state machine: the
//! program that owns the byte stream hands each step what happened (the
//! start with its input, bytes read, a timeout, a finished write or sleep,
//! an I/O error) and performs the action the step answers with.
//!
//! The steps run in order: `HelloStep` settles the roles, `CipherSuiteStep`
//! exchanges the offered and chosen suites, `KyberExchangeStep` agrees a
//! 32-byte session key by ML-KEM-1024, and `FinishStep` confirms the end.
use vstd::prelude::*;
use fips203::ml_kem_1024::{CipherText, DecapsKey, EncapsKey, KG};
use fips203::traits::{Decaps, Encaps, KeyGen, SerDes};
use rand::Rng;

verus! {

/// Length of an ML-KEM-1024 encapsulation key.
pub const EK_LEN: usize = 1568;

/// Length of an ML-KEM-1024 decapsulation key.
pub const DK_LEN: usize = 3168;

/// Length of an ML-KEM-1024 ciphertext.
pub const CT_LEN: usize = 1568;

/// Length of the shared secret.
pub const SS_LEN: usize = 32;

/// How long an undecided peer waits for a greeting, in milliseconds.
pub const PROBE_TIMEOUT_MS: u64 = 3000;

/// Greetings that collide before the hello step gives up.
pub const MAX_COLLISIONS: u32 = 10;

/// Largest chosen cipher suite read back.
pub const SUITE_READ_LEN: usize = 1024;

/// `"HELLO"`.
pub open spec fn hello_bytes() -> Seq<u8> {
    seq![72u8, 69, 76, 76, 79]
}

/// `"HELLO_ACK"`.
pub open spec fn hello_ack_bytes() -> Seq<u8> {
    seq![72u8, 69, 76, 76, 79, 95, 65, 67, 75]
}

/// `"HANDSHAKE_DONE"`.
pub open spec fn done_bytes() -> Seq<u8> {
    seq![72u8, 65, 78, 68, 83, 72, 65, 75, 69, 95, 68, 79, 78, 69]
}

/// `"OK"`.
pub open spec fn ok_bytes() -> Seq<u8> {
    seq![79u8, 75]
}

fn hello() -> (r: Vec<u8>)
    ensures
        r@ == hello_bytes(),
{
    let r = vec![72u8, 69, 76, 76, 79];
    assert(r@ =~= hello_bytes());
    r
}

fn hello_ack() -> (r: Vec<u8>)
    ensures
        r@ == hello_ack_bytes(),
{
    let r = vec![72u8, 69, 76, 76, 79, 95, 65, 67, 75];
    assert(r@ =~= hello_ack_bytes());
    r
}

fn handshake_done() -> (r: Vec<u8>)
    ensures
        r@ == done_bytes(),
{
    let r = vec![72u8, 65, 78, 68, 83, 72, 65, 75, 69, 95, 68, 79, 78, 69];
    assert(r@ =~= done_bytes());
    r
}

fn ok() -> (r: Vec<u8>)
    ensures
        r@ == ok_bytes(),
{
    let r = vec![79u8, 75];
    assert(r@ =~= ok_bytes());
    r
}

/// Whether two byte strings are equal.
pub fn bytes_eq(a: &[u8], b: &[u8]) -> (r: bool)
    ensures
        r == (a@ == b@),
{
    if a.len() != b.len() {
        return false;
    }
    let mut i: usize = 0;
    while i < a.len()
        invariant
            i <= a@.len(),
            a@.len() == b@.len(),
            forall|j: int| 0 <= j < i ==> a@[j] == b@[j],
        decreases a@.len() - i,
    {
        if a[i] != b[i] {
            return false;
        }
        i += 1;
    }
    assert(a@ =~= b@);
    true
}

/// Relies on `rand::thread_rng().gen_range(100..500)`: a delay drawn from
/// `[100, 500)` milliseconds.
#[verifier::external_body]
fn random_backoff_ms() -> (r: u64)
    ensures
        100 <= r < 500,
{
    rand::thread_rng().gen_range(100..500)
}

/// Relies on fips203's `KG::try_keygen` and `SerDes::into_bytes` for
/// ML-KEM-1024: an encapsulation key and a decapsulation key, as bytes.
#[verifier::external_body]
fn kem_keygen() -> (r: Option<(Vec<u8>, Vec<u8>)>)
    ensures
        match r {
            Some((ek, dk)) => ek@.len() == EK_LEN && dk@.len() == DK_LEN,
            None => true,
        },
{
    let (ek, dk) = KG::try_keygen().ok()?;
    Some((ek.into_bytes().to_vec(), dk.into_bytes().to_vec()))
}

/// Relies on fips203's `EncapsKey::try_from_bytes` and `Encaps::try_encaps`
/// for ML-KEM-1024: a 32-byte shared secret and its ciphertext, as bytes;
/// `None` for a key that does not decode.
#[verifier::external_body]
fn kem_encaps(ek: &[u8]) -> (r: Option<(Vec<u8>, Vec<u8>)>)
    requires
        ek@.len() == EK_LEN,
    ensures
        match r {
            Some((ss, ct)) => ss@.len() == SS_LEN && ct@.len() == CT_LEN,
            None => true,
        },
{
    let bytes: [u8; 1568] = ek.try_into().ok()?;
    let key = EncapsKey::try_from_bytes(bytes).ok()?;
    let (ss, ct) = key.try_encaps().ok()?;
    Some((ss.into_bytes().to_vec(), ct.into_bytes().to_vec()))
}

/// The shared secret that ML-KEM-1024 decapsulation derives from a
/// decapsulation key and a ciphertext.
pub uninterp spec fn ml_kem_decaps(dk: Seq<u8>, ct: Seq<u8>) -> Seq<u8>;

/// Relies on fips203's `DecapsKey::try_from_bytes`,
/// `CipherText::try_from_bytes` and `Decaps::try_decaps` for ML-KEM-1024:
/// the 32-byte shared secret, a function of key and ciphertext alone;
/// `None` for input that does not decode.
#[verifier::external_body]
fn kem_decaps(dk: &[u8], ct: &[u8]) -> (r: Option<Vec<u8>>)
    requires
        dk@.len() == DK_LEN,
        ct@.len() == CT_LEN,
    ensures
        r is Some ==> r->0@.len() == SS_LEN,
        r is Some ==> r->0@ == ml_kem_decaps(dk@, ct@),
{
    let dk_bytes: [u8; 3168] = dk.try_into().ok()?;
    let ct_bytes: [u8; 1568] = ct.try_into().ok()?;
    let key = DecapsKey::try_from_bytes(dk_bytes).ok()?;
    let cipher = CipherText::try_from_bytes(ct_bytes).ok()?;
    let ss = key.try_decaps(&cipher).ok()?;
    Some(ss.into_bytes().to_vec())
}

/// The part a peer plays in the handshake.
#[derive(Debug, Clone, Copy, PartialEq, Eq, Structural)]
pub enum HandshakeRole {
    Unknown,
    Initiator,
    Responder,
}

/// Why a handshake step failed.
#[derive(Debug)]
pub enum HandshakeError {
    Generic(String),
}

fn fail(msg: &str) -> (r: StepAction)
    ensures
        r@ == ActionView::Fail,
{
    StepAction::Fail(HandshakeError::Generic(String::from_str(msg)))
}

/// The session state that the key exchange fills.
pub struct TlsState {
    session_key: Vec<u8>,
}

impl TlsState {
    /// A state with no session key yet.
    pub fn new() -> (r: Self)
        ensures
            r.key() == Seq::<u8>::empty(),
    {
        TlsState { session_key: Vec::new() }
    }

    /// The session key; empty before the exchange.
    pub closed spec fn key(&self) -> Seq<u8> {
        self.session_key@
    }

    /// Replaces the session key.
    pub fn set_session_key(&mut self, key: Vec<u8>)
        ensures
            final(self).key() == key@,
    {
        self.session_key = key;
    }

    /// The session key.
    pub fn session_key(&self) -> (r: &Vec<u8>)
        ensures
            r@ == self.key(),
    {
        &self.session_key
    }
}

/// What the stream owner saw since the last action.
#[derive(Debug)]
pub enum StepEvent {
    /// The step begins, with the previous step's output.
    Start(Vec<u8>),
    /// The bytes that a read gave.
    Received(Vec<u8>),
    /// A read with a timeout got nothing in time.
    TimedOut,
    /// A write finished.
    Written,
    /// A sleep finished.
    Slept,
    /// The stream failed.
    IoError(String),
}

/// What a step asks of the stream owner.
#[derive(Debug)]
pub enum StepAction {
    /// Read exactly `len` bytes, giving up after `timeout_ms` if set.
    ReadExact { len: usize, timeout_ms: Option<u64> },
    /// Read once, at most `max` bytes.
    Read { max: usize },
    /// Write all of these bytes.
    Write(Vec<u8>),
    /// Sleep this many milliseconds.
    Sleep(u64),
    /// The step succeeded with this output.
    Done(Vec<u8>),
    /// The step failed; the handshake stops.
    Fail(HandshakeError),
}

/// What an event reports.
pub enum EventView {
    Start(Seq<u8>),
    Received(Seq<u8>),
    TimedOut,
    Written,
    Slept,
    IoError,
}

/// What an action asks. `SleepRandom` stands for a sleep of 100 to 499 ms
/// drawn at random.
pub enum ActionView {
    ReadExact { len: nat, timeout_ms: Option<u64> },
    Read { max: nat },
    Write(Seq<u8>),
    Sleep(u64),
    SleepRandom,
    Done(Seq<u8>),
    Fail,
}

impl View for StepEvent {
    type V = EventView;

    open spec fn view(&self) -> EventView {
        match self {
            StepEvent::Start(b) => EventView::Start(b@),
            StepEvent::Received(b) => EventView::Received(b@),
            StepEvent::TimedOut => EventView::TimedOut,
            StepEvent::Written => EventView::Written,
            StepEvent::Slept => EventView::Slept,
            StepEvent::IoError(_) => EventView::IoError,
        }
    }
}

impl View for StepAction {
    type V = ActionView;

    open spec fn view(&self) -> ActionView {
        match self {
            StepAction::ReadExact { len, timeout_ms } => ActionView::ReadExact {
                len: *len as nat,
                timeout_ms: *timeout_ms,
            },
            StepAction::Read { max } => ActionView::Read { max: *max as nat },
            StepAction::Write(b) => ActionView::Write(b@),
            StepAction::Sleep(ms) => ActionView::Sleep(*ms),
            StepAction::Done(b) => ActionView::Done(b@),
            StepAction::Fail(_) => ActionView::Fail,
        }
    }
}

/// The action `a` is what `expected` asks: the same, or for `SleepRandom`
/// a sleep of 100 to 499 ms.
pub open spec fn action_matches(a: ActionView, expected: ActionView) -> bool {
    match expected {
        ActionView::SleepRandom => match a {
            ActionView::Sleep(ms) => 100 <= ms < 500,
            _ => false,
        },
        _ => a == expected,
    }
}

/// A step of the handshake: it has a protocol id, and moves on each event
/// that its stream owner reports.
pub trait HandshakeStep {
    /// The protocol id.
    fn get_protocol_id(&self) -> &str;

    /// Replaces the protocol id, where the step keeps one.
    fn set_protocol_id(&mut self, protocol_id: &str);

    /// Takes what happened and answers with the next action.
    fn execute(&mut self, event: StepEvent) -> StepAction;
}

/// Where the hello step stands.
#[derive(Debug, Clone, Copy, PartialEq, Eq, Structural)]
pub enum HelloPhase {
    Idle,
    Probing,
    ProbeBackoff,
    InitiatorDelay,
    InitiatorWrite,
    InitiatorAwaitAck,
    ResponderAwaitHello,
    ResponderWriteAck,
    Finished,
    Failed,
}

/// What the hello step holds: its role, phase and greetings that collided.
pub struct HelloView {
    pub role: HandshakeRole,
    pub phase: HelloPhase,
    pub collisions: u32,
}

/// Entering `role`: probe for a greeting, wait then greet, or await one.
pub open spec fn hello_enter(role: HandshakeRole, collisions: u32) -> (HelloView, ActionView) {
    match role {
        HandshakeRole::Unknown => (
            HelloView { role, phase: HelloPhase::Probing, collisions },
            ActionView::ReadExact { len: 5, timeout_ms: Some(PROBE_TIMEOUT_MS) },
        ),
        HandshakeRole::Initiator => (
            HelloView { role, phase: HelloPhase::InitiatorDelay, collisions },
            ActionView::SleepRandom,
        ),
        HandshakeRole::Responder => (
            HelloView { role, phase: HelloPhase::ResponderAwaitHello, collisions },
            ActionView::ReadExact { len: 5, timeout_ms: None },
        ),
    }
}

/// A greeting collided: back off, or give up after too many collisions.
pub open spec fn hello_collide(s: HelloView, next: HelloPhase) -> (HelloView, ActionView) {
    if s.collisions + 1 >= MAX_COLLISIONS {
        (HelloView { phase: HelloPhase::Failed, ..s }, ActionView::Fail)
    } else {
        (HelloView { phase: next, collisions: (s.collisions + 1) as u32, ..s }, ActionView::SleepRandom)
    }
}

/// One move of the hello step.
///
/// Undecided, it waits 3 s for five bytes: `"HELLO"` means both sides
/// greeted, so it backs off 100 to 499 ms and probes again; silence makes
/// it the initiator. The initiator waits 100 to 499 ms, writes `"HELLO"` and
/// expects `"HELLO_ACK"`. The responder reads five bytes and answers
/// `"HELLO"` with `"HELLO_ACK"`. Ten collisions, unexpected bytes, an I/O
/// error or an event out of turn fail the step.
pub open spec fn hello_next(s: HelloView, e: EventView) -> (HelloView, ActionView) {
    let failed = (HelloView { phase: HelloPhase::Failed, ..s }, ActionView::Fail);
    match (s.phase, e) {
        (HelloPhase::Idle, EventView::Start(_)) => hello_enter(s.role, s.collisions),
        (HelloPhase::Probing, EventView::Received(b)) => if b == hello_bytes() {
            hello_collide(s, HelloPhase::ProbeBackoff)
        } else {
            failed
        },
        (HelloPhase::Probing, EventView::TimedOut) => hello_enter(HandshakeRole::Initiator, s.collisions),
        (HelloPhase::ProbeBackoff, EventView::Slept) => hello_enter(HandshakeRole::Unknown, s.collisions),
        (HelloPhase::InitiatorDelay, EventView::Slept) => (
            HelloView { phase: HelloPhase::InitiatorWrite, ..s },
            ActionView::Write(hello_bytes()),
        ),
        (HelloPhase::InitiatorWrite, EventView::Written) => (
            HelloView { phase: HelloPhase::InitiatorAwaitAck, ..s },
            ActionView::ReadExact { len: 9, timeout_ms: None },
        ),
        (HelloPhase::InitiatorAwaitAck, EventView::Received(b)) => if b == hello_ack_bytes() {
            (HelloView { phase: HelloPhase::Finished, ..s }, ActionView::Done(Seq::empty()))
        } else {
            failed
        },
        (HelloPhase::ResponderAwaitHello, EventView::Received(b)) => if b == hello_bytes() {
            (HelloView { phase: HelloPhase::ResponderWriteAck, ..s }, ActionView::Write(hello_ack_bytes()))
        } else {
            failed
        },
        (HelloPhase::ResponderWriteAck, EventView::Written) => (
            HelloView { phase: HelloPhase::Finished, ..s },
            ActionView::Done(Seq::empty()),
        ),
        _ => failed,
    }
}

/// An undecided peer that hears nothing within the 3 s probe becomes the
/// initiator: it waits 100 to 499 ms, then writes `"HELLO"` and awaits the
/// 9-byte acknowledgement.
pub proof fn lemma_silent_peer_initiates(collisions: u32)
    ensures
        ({
            let s0 = HelloView { role: HandshakeRole::Unknown, phase: HelloPhase::Idle, collisions };
            let (s1, a1) = hello_next(s0, EventView::Start(Seq::empty()));
            let (s2, a2) = hello_next(s1, EventView::TimedOut);
            let (s3, a3) = hello_next(s2, EventView::Slept);
            let (s4, a4) = hello_next(s3, EventView::Written);
            &&& a1 == (ActionView::ReadExact { len: 5, timeout_ms: Some(PROBE_TIMEOUT_MS) })
            &&& s2.role == HandshakeRole::Initiator
            &&& a2 == ActionView::SleepRandom
            &&& a3 == ActionView::Write(hello_bytes())
            &&& a4 == (ActionView::ReadExact { len: 9, timeout_ms: None })
        }),
{
}

/// Settles which peer initiates.
pub struct HelloStep {
    protocol_id: String,
    role: HandshakeRole,
    phase: HelloPhase,
    collisions: u32,
}

impl View for HelloStep {
    type V = HelloView;

    closed spec fn view(&self) -> HelloView {
        HelloView { role: self.role, phase: self.phase, collisions: self.collisions }
    }
}

impl HelloStep {
    /// A hello step that starts in `role`.
    pub fn new(protocol_id: &str, role: HandshakeRole) -> (r: Self)
        ensures
            r@ == (HelloView { role, phase: HelloPhase::Idle, collisions: 0 }),
            r.protocol_id()@ == protocol_id@,
    {
        HelloStep { protocol_id: String::from_str(protocol_id), role, phase: HelloPhase::Idle, collisions: 0 }
    }

    /// The protocol id.
    pub closed spec fn protocol_id(&self) -> String {
        self.protocol_id
    }

    /// The protocol id.
    pub fn get_protocol_id(&self) -> (r: &str)
        ensures
            r@ == self.protocol_id()@,
    {
        self.protocol_id.as_str()
    }

    /// Replaces the protocol id.
    pub fn set_protocol_id(&mut self, protocol_id: &str)
        ensures
            final(self).protocol_id()@ == protocol_id@,
            final(self)@ == old(self)@,
    {
        self.protocol_id = String::from_str(protocol_id);
    }

    /// The current role.
    pub fn role(&self) -> (r: HandshakeRole)
        ensures
            r == self@.role,
    {
        self.role
    }

    fn enter(&mut self, role: HandshakeRole) -> (r: StepAction)
        ensures
            (final(self)@, r@) == (hello_enter(role, old(self).collisions).0, r@),
            action_matches(r@, hello_enter(role, old(self).collisions).1),
            final(self).protocol_id == old(self).protocol_id,
    {
        self.role = role;
        match role {
            HandshakeRole::Unknown => {
                self.phase = HelloPhase::Probing;
                StepAction::ReadExact { len: 5, timeout_ms: Some(PROBE_TIMEOUT_MS) }
            },
            HandshakeRole::Initiator => {
                self.phase = HelloPhase::InitiatorDelay;
                StepAction::Sleep(random_backoff_ms())
            },
            HandshakeRole::Responder => {
                self.phase = HelloPhase::ResponderAwaitHello;
                StepAction::ReadExact { len: 5, timeout_ms: None }
            },
        }
    }

    fn collide(&mut self, next: HelloPhase) -> (r: StepAction)
        ensures
            final(self)@ == hello_collide(old(self)@, next).0,
            action_matches(r@, hello_collide(old(self)@, next).1),
            final(self).protocol_id == old(self).protocol_id,
    {
        if self.collisions >= MAX_COLLISIONS - 1 {
            self.phase = HelloPhase::Failed;
            fail("Too many simultaneous HELLO messages")
        } else {
            self.collisions = self.collisions + 1;
            self.phase = next;
            StepAction::Sleep(random_backoff_ms())
        }
    }

    /// Takes what happened and answers with the next action, as
    /// `hello_next` says.
    pub fn execute(&mut self, event: StepEvent) -> (r: StepAction)
        ensures
            final(self)@ == hello_next(old(self)@, event@).0,
            action_matches(r@, hello_next(old(self)@, event@).1),
            final(self).protocol_id() == old(self).protocol_id(),
    {
        match (self.phase, event) {
            (HelloPhase::Idle, StepEvent::Start(_)) => self.enter(self.role),
            (HelloPhase::Probing, StepEvent::Received(b)) => {
                if bytes_eq(b.as_slice(), hello().as_slice()) {
                    self.collide(HelloPhase::ProbeBackoff)
                } else {
                    self.phase = HelloPhase::Failed;
                    fail("Unknown role detection error")
                }
            },
            (HelloPhase::Probing, StepEvent::TimedOut) => self.enter(HandshakeRole::Initiator),
            (HelloPhase::ProbeBackoff, StepEvent::Slept) => self.enter(HandshakeRole::Unknown),
            (HelloPhase::InitiatorDelay, StepEvent::Slept) => {
                self.phase = HelloPhase::InitiatorWrite;
                StepAction::Write(hello())
            },
            (HelloPhase::InitiatorWrite, StepEvent::Written) => {
                self.phase = HelloPhase::InitiatorAwaitAck;
                StepAction::ReadExact { len: 9, timeout_ms: None }
            },
            (HelloPhase::InitiatorAwaitAck, StepEvent::Received(b)) => {
                if bytes_eq(b.as_slice(), hello_ack().as_slice()) {
                    self.phase = HelloPhase::Finished;
                    let out: Vec<u8> = Vec::new();
                    assert(out@ =~= Seq::<u8>::empty());
                    StepAction::Done(out)
                } else {
                    self.phase = HelloPhase::Failed;
                    fail("Invalid HELLO_ACK response")
                }
            },
            (HelloPhase::ResponderAwaitHello, StepEvent::Received(b)) => {
                if bytes_eq(b.as_slice(), hello().as_slice()) {
                    self.phase = HelloPhase::ResponderWriteAck;
                    StepAction::Write(hello_ack())
                } else {
                    self.phase = HelloPhase::Failed;
                    fail("Expected HELLO")
                }
            },
            (HelloPhase::ResponderWriteAck, StepEvent::Written) => {
                self.phase = HelloPhase::Finished;
                let out: Vec<u8> = Vec::new();
                assert(out@ =~= Seq::<u8>::empty());
                StepAction::Done(out)
            },
            _ => {
                self.phase = HelloPhase::Failed;
                fail("Unexpected event in hello step")
            },
        }
    }
}

impl HandshakeStep for HelloStep {
    fn get_protocol_id(&self) -> &str {
        HelloStep::get_protocol_id(self)
    }

    fn set_protocol_id(&mut self, protocol_id: &str) {
        HelloStep::set_protocol_id(self, protocol_id)
    }

    fn execute(&mut self, event: StepEvent) -> StepAction {
        HelloStep::execute(self, event)
    }
}

/// Where the cipher-suite step stands.
#[derive(Debug, Clone, Copy, PartialEq, Eq, Structural)]
pub enum SuitePhase {
    Idle,
    Sending,
    Reading,
    Finished,
    Failed,
}

/// One move of the cipher-suite step: write the offered suites (the
/// input) as they are, read once up to 1024 bytes, and give what was read
/// as the chosen suite.
pub open spec fn suite_next(p: SuitePhase, e: EventView) -> (SuitePhase, ActionView) {
    match (p, e) {
        (SuitePhase::Idle, EventView::Start(input)) => (SuitePhase::Sending, ActionView::Write(input)),
        (SuitePhase::Sending, EventView::Written) => (
            SuitePhase::Reading,
            ActionView::Read { max: SUITE_READ_LEN as nat },
        ),
        (SuitePhase::Reading, EventView::Received(b)) => if b.len() <= SUITE_READ_LEN {
            (SuitePhase::Finished, ActionView::Done(b))
        } else {
            (SuitePhase::Failed, ActionView::Fail)
        },
        _ => (SuitePhase::Failed, ActionView::Fail),
    }
}

/// Exchanges the offered and the chosen cipher suites.
pub struct CipherSuiteStep {
    protocol_id: String,
    phase: SuitePhase,
}

impl CipherSuiteStep {
    /// A cipher-suite step about to start.
    pub fn new(protocol_id: &str) -> (r: Self)
        ensures
            r.phase() == SuitePhase::Idle,
            r.protocol_id()@ == protocol_id@,
    {
        CipherSuiteStep { protocol_id: String::from_str(protocol_id), phase: SuitePhase::Idle }
    }

    /// The protocol id.
    pub closed spec fn protocol_id(&self) -> String {
        self.protocol_id
    }

    /// Where the step stands.
    pub closed spec fn phase(&self) -> SuitePhase {
        self.phase
    }

    /// The protocol id.
    pub fn get_protocol_id(&self) -> (r: &str)
        ensures
            r@ == self.protocol_id()@,
    {
        self.protocol_id.as_str()
    }

    /// Replaces the protocol id.
    pub fn set_protocol_id(&mut self, protocol_id: &str)
        ensures
            final(self).protocol_id()@ == protocol_id@,
            final(self).phase() == old(self).phase(),
    {
        self.protocol_id = String::from_str(protocol_id);
    }

    /// Takes what happened and answers with the next action, as
    /// `suite_next` says.
    pub fn execute(&mut self, event: StepEvent) -> (r: StepAction)
        ensures
            (final(self).phase(), r@) == suite_next(old(self).phase(), event@),
            final(self).protocol_id() == old(self).protocol_id(),
    {
        match (self.phase, event) {
            (SuitePhase::Idle, StepEvent::Start(input)) => {
                self.phase = SuitePhase::Sending;
                StepAction::Write(input)
            },
            (SuitePhase::Sending, StepEvent::Written) => {
                self.phase = SuitePhase::Reading;
                StepAction::Read { max: SUITE_READ_LEN }
            },
            (SuitePhase::Reading, StepEvent::Received(b)) => {
                if b.len() <= SUITE_READ_LEN {
                    self.phase = SuitePhase::Finished;
                    StepAction::Done(b)
                } else {
                    self.phase = SuitePhase::Failed;
                    fail("Cipher suite response too long")
                }
            },
            _ => {
                self.phase = SuitePhase::Failed;
                fail("Unexpected event in cipher suite step")
            },
        }
    }
}

impl HandshakeStep for CipherSuiteStep {
    fn get_protocol_id(&self) -> &str {
        CipherSuiteStep::get_protocol_id(self)
    }

    fn set_protocol_id(&mut self, protocol_id: &str) {
        CipherSuiteStep::set_protocol_id(self, protocol_id)
    }

    fn execute(&mut self, event: StepEvent) -> StepAction {
        CipherSuiteStep::execute(self, event)
    }
}

/// Where the key exchange stands.
#[derive(Debug, Clone, Copy, PartialEq, Eq, Structural)]
pub enum KemPhase {
    Idle,
    SendingKey,
    AwaitCiphertext,
    AwaitKey,
    SendingCiphertext,
    Finished,
    Failed,
}

/// Agrees a session key by ML-KEM-1024. The initiator sends a fresh
/// encapsulation key and decapsulates the ciphertext that comes back; the
/// responder encapsulates to the key it reads and sends the ciphertext.
/// Each stores the 32-byte shared secret as the session key.
pub struct KyberExchangeStep {
    role: HandshakeRole,
    phase: KemPhase,
    decaps_key: Vec<u8>,
    pending_secret: Vec<u8>,
    state: TlsState,
}

impl KyberExchangeStep {
    /// A key exchange about to start in `role`, filling `state`.
    pub fn new(role: HandshakeRole, state: TlsState) -> (r: Self)
        ensures
            r.role() == role,
            r.phase() == KemPhase::Idle,
            r.state().key() == state.key(),
    {
        KyberExchangeStep {
            role,
            phase: KemPhase::Idle,
            decaps_key: Vec::new(),
            pending_secret: Vec::new(),
            state,
        }
    }

    /// The role.
    pub closed spec fn role(&self) -> HandshakeRole {
        self.role
    }

    /// Where the step stands.
    pub closed spec fn phase(&self) -> KemPhase {
        self.phase
    }

    /// The session state.
    pub closed spec fn state(&self) -> TlsState {
        self.state
    }

    /// The initiator's decapsulation key, once generated.
    pub closed spec fn decaps_key(&self) -> Seq<u8> {
        self.decaps_key@
    }

    /// The responder's secret, encapsulated with the ciphertext it sends.
    pub closed spec fn pending_secret(&self) -> Seq<u8> {
        self.pending_secret@
    }

    /// The protocol id of the key exchange.
    pub fn get_protocol_id(&self) -> (r: &'static str)
        ensures
            r@ == "TLS_HANDSHAKE"@,
    {
        "TLS_HANDSHAKE"
    }

    /// The key exchange keeps its fixed protocol id.
    pub fn set_protocol_id(&mut self, _protocol_id: &str)
        ensures
            *final(self) == *old(self),
    {
    }

    /// The session state filled by the exchange.
    pub fn tls_state(&self) -> (r: &TlsState)
        ensures
            r.key() == self.state().key(),
    {
        &self.state
    }

    /// Takes what happened and answers with the next action.
    ///
    /// Initiator: on start a fresh key pair, and the 1568-byte encapsulation
    /// key to write; once written, read exactly 1568 bytes of ciphertext;
    /// on receiving them, the decapsulated secret becomes the session key
    /// and the step is done with empty output. Responder: on start read
    /// exactly 1568 bytes of key; on receiving them, write the 1568-byte
    /// ciphertext of a fresh encapsulation; once written, its secret becomes
    /// the session key and the step is done with empty output. A failed key
    /// generation, encapsulation or decapsulation, bytes of another length,
    /// an undecided role, an I/O error or an event out of turn fail it.
    pub fn execute(&mut self, event: StepEvent) -> (r: StepAction)
        ensures
            final(self).role() == old(self).role(),
            r@ is Done ==> r@ == ActionView::Done(Seq::empty()) && final(self).state().key().len()
                == SS_LEN && final(self).phase() == KemPhase::Finished,
            !(r@ is Done) ==> final(self).state().key() == old(self).state().key(),
            match (old(self).phase(), event@) {
                (KemPhase::Idle, EventView::Start(_)) => match old(self).role() {
                    HandshakeRole::Initiator => (final(self).phase() == KemPhase::SendingKey && r@
                        is Write && r@->Write_0.len() == EK_LEN && final(self).decaps_key().len()
                        == DK_LEN) || (final(self).phase()
                        == KemPhase::Failed && r@ == ActionView::Fail),
                    HandshakeRole::Responder => final(self).phase() == KemPhase::AwaitKey && r@
                        == (ActionView::ReadExact { len: CT_LEN as nat, timeout_ms: None }),
                    HandshakeRole::Unknown => final(self).phase() == KemPhase::Failed && r@
                        == ActionView::Fail,
                },
                (KemPhase::SendingKey, EventView::Written) => final(self).phase()
                    == KemPhase::AwaitCiphertext && r@ == (ActionView::ReadExact {
                    len: CT_LEN as nat,
                    timeout_ms: None,
                }) && final(self).decaps_key() == old(self).decaps_key(),
                (KemPhase::AwaitCiphertext, EventView::Received(ct)) => if ct.len() == CT_LEN {
                    (r@ is Done && final(self).state().key() == ml_kem_decaps(
                        old(self).decaps_key(),
                        ct,
                    )) || (final(self).phase() == KemPhase::Failed && r@ == ActionView::Fail)
                } else {
                    final(self).phase() == KemPhase::Failed && r@ == ActionView::Fail
                },
                (KemPhase::AwaitKey, EventView::Received(ek)) => if ek.len() == EK_LEN {
                    (final(self).phase() == KemPhase::SendingCiphertext && r@ is Write
                        && r@->Write_0.len() == CT_LEN && final(self).pending_secret().len() == SS_LEN)
                        || (final(self).phase() == KemPhase::Failed
                        && r@ == ActionView::Fail)
                } else {
                    final(self).phase() == KemPhase::Failed && r@ == ActionView::Fail
                },
                (KemPhase::SendingCiphertext, EventView::Written) => (r@ is Done
                    && final(self).state().key() == old(self).pending_secret()) || (final(self).phase()
                    == KemPhase::Failed && r@ == ActionView::Fail),
                _ => final(self).phase() == KemPhase::Failed && r@ == ActionView::Fail,
            },
    {
        match (self.phase, event) {
            (KemPhase::Idle, StepEvent::Start(_)) => match self.role {
                HandshakeRole::Initiator => match kem_keygen() {
                    Some((ek, dk)) => {
                        self.decaps_key = dk;
                        self.phase = KemPhase::SendingKey;
                        StepAction::Write(ek)
                    },
                    None => {
                        self.phase = KemPhase::Failed;
                        fail("Key generation failed")
                    },
                },
                HandshakeRole::Responder => {
                    self.phase = KemPhase::AwaitKey;
                    StepAction::ReadExact { len: EK_LEN, timeout_ms: None }
                },
                HandshakeRole::Unknown => {
                    self.phase = KemPhase::Failed;
                    fail("Handshake role not set correctly")
                },
            },
            (KemPhase::SendingKey, StepEvent::Written) => {
                self.phase = KemPhase::AwaitCiphertext;
                StepAction::ReadExact { len: CT_LEN, timeout_ms: None }
            },
            (KemPhase::AwaitCiphertext, StepEvent::Received(ct)) => {
                if ct.len() != CT_LEN || self.decaps_key.len() != DK_LEN {
                    self.phase = KemPhase::Failed;
                    return fail("Ciphertext has the wrong length");
                }
                match kem_decaps(self.decaps_key.as_slice(), ct.as_slice()) {
                    Some(ss) => {
                        self.state.set_session_key(ss);
                        self.phase = KemPhase::Finished;
                        let out: Vec<u8> = Vec::new();
                        assert(out@ =~= Seq::<u8>::empty());
                        StepAction::Done(out)
                    },
                    None => {
                        self.phase = KemPhase::Failed;
                        fail("Decapsulation failed")
                    },
                }
            },
            (KemPhase::AwaitKey, StepEvent::Received(ek)) => {
                if ek.len() != EK_LEN {
                    self.phase = KemPhase::Failed;
                    return fail("Public key has the wrong length");
                }
                match kem_encaps(ek.as_slice()) {
                    Some((ss, ct)) => {
                        self.pending_secret = ss;
                        self.phase = KemPhase::SendingCiphertext;
                        StepAction::Write(ct)
                    },
                    None => {
                        self.phase = KemPhase::Failed;
                        fail("Encapsulation failed")
                    },
                }
            },
            (KemPhase::SendingCiphertext, StepEvent::Written) => {
                if self.pending_secret.len() != SS_LEN {
                    self.phase = KemPhase::Failed;
                    return fail("Shared secret has the wrong length");
                }
                let mut ss: Vec<u8> = Vec::new();
                core::mem::swap(&mut ss, &mut self.pending_secret);
                self.state.set_session_key(ss);
                self.phase = KemPhase::Finished;
                let out: Vec<u8> = Vec::new();
                assert(out@ =~= Seq::<u8>::empty());
                StepAction::Done(out)
            },
            _ => {
                self.phase = KemPhase::Failed;
                fail("Unexpected event in key exchange step")
            },
        }
    }
}

impl HandshakeStep for KyberExchangeStep {
    fn get_protocol_id(&self) -> &str {
        KyberExchangeStep::get_protocol_id(self)
    }

    fn set_protocol_id(&mut self, protocol_id: &str) {
        KyberExchangeStep::set_protocol_id(self, protocol_id)
    }

    fn execute(&mut self, event: StepEvent) -> StepAction {
        KyberExchangeStep::execute(self, event)
    }
}

/// Where the finish step stands.
#[derive(Debug, Clone, Copy, PartialEq, Eq, Structural)]
pub enum FinishPhase {
    Idle,
    SendingDone,
    AwaitOk,
    AwaitDone,
    SendingOk,
    Finished,
    Failed,
}

/// What the finish step holds: its phase and the input it hands on.
pub struct FinishView {
    pub phase: FinishPhase,
    pub input: Seq<u8>,
}

/// One move of the finish step: the initiator writes `"HANDSHAKE_DONE"`
/// and expects `"OK"`; the responder expects `"HANDSHAKE_DONE"` and writes
/// `"OK"`. Done, it gives its input back unchanged. An undecided role, other
/// bytes, an I/O error or an event out of turn fail it.
pub open spec fn finish_next(role: HandshakeRole, s: FinishView, e: EventView) -> (FinishView, ActionView) {
    let failed = (FinishView { phase: FinishPhase::Failed, ..s }, ActionView::Fail);
    match (s.phase, e) {
        (FinishPhase::Idle, EventView::Start(input)) => match role {
            HandshakeRole::Initiator => (
                FinishView { phase: FinishPhase::SendingDone, input },
                ActionView::Write(done_bytes()),
            ),
            HandshakeRole::Responder => (
                FinishView { phase: FinishPhase::AwaitDone, input },
                ActionView::ReadExact { len: 14, timeout_ms: None },
            ),
            HandshakeRole::Unknown => (FinishView { phase: FinishPhase::Failed, input }, ActionView::Fail),
        },
        (FinishPhase::SendingDone, EventView::Written) => (
            FinishView { phase: FinishPhase::AwaitOk, ..s },
            ActionView::ReadExact { len: 2, timeout_ms: None },
        ),
        (FinishPhase::AwaitOk, EventView::Received(b)) => if b == ok_bytes() {
            (FinishView { phase: FinishPhase::Finished, ..s }, ActionView::Done(s.input))
        } else {
            failed
        },
        (FinishPhase::AwaitDone, EventView::Received(b)) => if b == done_bytes() {
            (FinishView { phase: FinishPhase::SendingOk, ..s }, ActionView::Write(ok_bytes()))
        } else {
            failed
        },
        (FinishPhase::SendingOk, EventView::Written) => (
            FinishView { phase: FinishPhase::Finished, ..s },
            ActionView::Done(s.input),
        ),
        _ => failed,
    }
}

/// Confirms that both peers finished the handshake.
pub struct FinishStep {
    pub role: HandshakeRole,
    pub phase: FinishPhase,
    pub input: Vec<u8>,
}

impl View for FinishStep {
    type V = FinishView;

    open spec fn view(&self) -> FinishView {
        FinishView { phase: self.phase, input: self.input@ }
    }
}

impl FinishStep {
    /// A finish step about to start in `role`.
    pub fn new(role: HandshakeRole) -> (r: Self)
        ensures
            r.role == role,
            r@.phase == FinishPhase::Idle,
    {
        FinishStep { role, phase: FinishPhase::Idle, input: Vec::new() }
    }

    /// The protocol id of the finish step.
    pub fn get_protocol_id(&self) -> (r: &'static str)
        ensures
            r@ == "TLS_HANDSHAKE"@,
    {
        "TLS_HANDSHAKE"
    }

    /// The finish step keeps its fixed protocol id.
    pub fn set_protocol_id(&mut self, _protocol_id: &str)
        ensures
            *final(self) == *old(self),
    {
    }

    /// Takes what happened and answers with the next action, as
    /// `finish_next` says.
    pub fn execute(&mut self, event: StepEvent) -> (r: StepAction)
        ensures
            (final(self)@, r@) == finish_next(old(self).role, old(self)@, event@),
            final(self).role == old(self).role,
    {
        match (self.phase, event) {
            (FinishPhase::Idle, StepEvent::Start(input)) => {
                self.input = input;
                match self.role {
                    HandshakeRole::Initiator => {
                        self.phase = FinishPhase::SendingDone;
                        StepAction::Write(handshake_done())
                    },
                    HandshakeRole::Responder => {
                        self.phase = FinishPhase::AwaitDone;
                        StepAction::ReadExact { len: 14, timeout_ms: None }
                    },
                    HandshakeRole::Unknown => {
                        self.phase = FinishPhase::Failed;
                        fail("FinishStep cannot proceed with Unknown role")
                    },
                }
            },
            (FinishPhase::SendingDone, StepEvent::Written) => {
                self.phase = FinishPhase::AwaitOk;
                StepAction::ReadExact { len: 2, timeout_ms: None }
            },
            (FinishPhase::AwaitOk, StepEvent::Received(b)) => {
                if bytes_eq(b.as_slice(), ok().as_slice()) {
                    self.phase = FinishPhase::Finished;
                    let mut out: Vec<u8> = Vec::new();
                    core::mem::swap(&mut out, &mut self.input);
                    self.input = out.clone();
                    StepAction::Done(out)
                } else {
                    self.phase = FinishPhase::Failed;
                    fail("FinishStep expected OK")
                }
            },
            (FinishPhase::AwaitDone, StepEvent::Received(b)) => {
                if bytes_eq(b.as_slice(), handshake_done().as_slice()) {
                    self.phase = FinishPhase::SendingOk;
                    StepAction::Write(ok())
                } else {
                    self.phase = FinishPhase::Failed;
                    fail("FinishStep expected HANDSHAKE_DONE")
                }
            },
            (FinishPhase::SendingOk, StepEvent::Written) => {
                self.phase = FinishPhase::Finished;
                let mut out: Vec<u8> = Vec::new();
                core::mem::swap(&mut out, &mut self.input);
                self.input = out.clone();
                StepAction::Done(out)
            },
            _ => {
                self.phase = FinishPhase::Failed;
                fail("Unexpected event in finish step")
            },
        }
    }
}

impl HandshakeStep for FinishStep {
    fn get_protocol_id(&self) -> &str {
        FinishStep::get_protocol_id(self)
    }

    fn set_protocol_id(&mut self, protocol_id: &str) {
        FinishStep::set_protocol_id(self, protocol_id)
    }

    fn execute(&mut self, event: StepEvent) -> StepAction {
        FinishStep::execute(self, event)
    }
}

} // verus!
