//! A log-structured key-value store with a framed wire protocol.
//!
//! The store keeps every mutation as a record appended to a single
//! byte log, and serves reads from an in-memory index that maps each
//! key to the offset of its latest record.  The wire protocol frames
//! typed messages with a fixed header so that a client and the server
//! exchange one request and one reply per connection.

use vstd::prelude::*;
use vstd::rwlock::RwLock;
use vstd::utf8::encode_utf8;

use std::sync::Arc;

pub mod codec;
pub mod errors;
pub mod state;
pub mod thread_pool;

use crate::errors::KvsError;
use crate::errors::ProtocolFault;
use crate::state::State;

verus! {

/// Message-type value for a command frame.
pub const COMMAND_MESSAGE: u32 = 1;

/// Message-type value for an error frame.
pub const ERROR_MESSAGE: u32 = 2;

/// Message-type value for a plain-string frame.
pub const STRING_MESSAGE: u32 = 3;

/// Largest payload, in bytes, that one frame may carry.
pub const BUFFER_SIZE: usize = 1024;

/// The operation named by a command, or by a logged record.
///
/// Only `Put` and `Remove` are ever written to the log; `Get` arrives
/// over the wire, and `Noop` marks a command that names no operation.
#[derive(Clone, Copy, Debug, PartialEq, Eq, Structural)]
pub enum Action {
    Noop,
    Get,
    Put,
    Remove,
}

/// One operation on the store: an action, a key, and a value.
///
/// The value is empty and unused unless the action is `Put`.
#[derive(Debug)]
pub struct Command {
    pub action: Action,
    pub key: String,
    pub value: String,
}

/// The unit exchanged over the wire: a command, an error text, or a
/// plain string reply.
#[derive(Debug)]
pub enum Message {
    Command(Command),
    Error(String),
    String(String),
}

/// The mathematical value of a [`Command`]: its texts as character
/// sequences.
pub struct CommandView {
    pub action: Action,
    pub key: Seq<char>,
    pub value: Seq<char>,
}

/// The mathematical value of a [`Message`].
pub enum MessageView {
    Command(CommandView),
    Error(Seq<char>),
    String(Seq<char>),
}

impl View for Command {
    type V = CommandView;

    open spec fn view(&self) -> CommandView {
        CommandView { action: self.action, key: self.key@, value: self.value@ }
    }
}

impl View for Message {
    type V = MessageView;

    open spec fn view(&self) -> MessageView {
        match self {
            Message::Command(c) => MessageView::Command(c@),
            Message::Error(t) => MessageView::Error(t@),
            Message::String(t) => MessageView::String(t@),
        }
    }
}

/// The lock guarding the engine's state, with well-formedness as its
/// invariant: every acquisition observes a well-formed state, and
/// every release must leave one.
type StateLock = RwLock<State, spec_fn(State) -> bool>;

/// The capability contract of an engine: a cloneable handle
/// whose duplicates all drive one shared store.
pub trait KvsEngine: Sized + Clone + Send + 'static {
    fn set(&self, key: String, value: String) -> Result<(), KvsError>;

    fn get(&self, key: String) -> Result<Option<String>, KvsError>;

    fn remove(&self, key: String) -> Result<Option<()>, KvsError>;
}

/// The key-value store: one engine state behind a lock, shared by
/// every clone of the handle.
///
/// Duplication is lifetime-sharing, not copying: all clones refer to
/// the same log and index, and each `get`/`set`/`remove` call holds
/// exclusive (or shared, for reads) access for exactly that call.
/// The operations are verified never to panic, so no call can leave
/// the lock unusable for later callers.
pub struct KvStore {
    state: Arc<StateLock>,
}

/// The predicate every state stored in the lock satisfies.
pub open spec fn state_inv() -> spec_fn(State) -> bool {
    |s: State| s.wf()
}

/// Relies on `Arc::clone`: the returned handle refers to the very
/// same shared allocation, and so to the same lock and state.
#[verifier::external_body]
fn share_state(a: &Arc<StateLock>) -> (r: Arc<StateLock>)
    ensures
        r == *a,
{
    Arc::clone(a)
}

impl KvStore {
    #[verifier::type_invariant]
    spec fn inv(self) -> bool {
        self.state.pred() == state_inv()
    }

    /// Opens a store over the bytes of its log file: replays them to
    /// rebuild the index, and shares the result behind a lock.
    /// Fails with `CorruptLog` exactly when the bytes are not a whole
    /// number of valid records.
    pub fn open(log: Vec<u8>) -> (r: Result<KvStore, KvsError>)
        ensures
            match r {
                Ok(_) => state::spec_parse_log(log@) is Some,
                Err(e) => e == KvsError::CorruptLog && state::spec_parse_log(log@) is None,
            },
    {
        let st = match State::open(log) {
            Ok(st) => st,
            Err(e) => {
                return Err(e);
            },
        };
        assert(state_inv()(st));
        let lock = RwLock::<State, spec_fn(State) -> bool>::new(st, Ghost(state_inv()));
        Ok(KvStore { state: Arc::new(lock) })
    }

    /// Reads the value currently held under `key`, as of the moment
    /// this call holds the lock.  Never fails.
    pub fn get(&self, key: String) -> (r: Result<Option<String>, KvsError>)
        ensures
            r is Ok,
    {
        proof {
            use_type_invariant(self);
        }
        let handle = self.state.acquire_read();
        let res = handle.borrow().get(key);
        handle.release_read();
        res
    }

    /// Appends a `Put` record for `key` and updates the index, under
    /// exclusive access.  Never fails.
    pub fn set(&self, key: String, value: String) -> (r: Result<(), KvsError>)
        ensures
            r is Ok,
    {
        proof {
            use_type_invariant(self);
        }
        let (mut st, handle) = self.state.acquire_write();
        let res = st.set(key, value);
        handle.release_write(st);
        res
    }

    /// Appends a `Remove` record for `key` and updates the index,
    /// under exclusive access, or fails with `KeyNotFound` when the
    /// key held no value at that moment.
    pub fn remove(&self, key: String) -> (r: Result<Option<()>, KvsError>)
        ensures
            r is Ok || r == Err::<Option<()>, KvsError>(KvsError::KeyNotFound),
    {
        proof {
            use_type_invariant(self);
        }
        let (mut st, handle) = self.state.acquire_write();
        let res = st.remove(key);
        handle.release_write(st);
        res
    }
}

impl Clone for KvStore {
    /// A second handle to the same store: the log and index are
    /// shared, not copied, so every operation through either handle
    /// is observed by the other.
    fn clone(&self) -> (r: KvStore)
        ensures
            r == *self,
    {
        proof {
            use_type_invariant(self);
        }
        KvStore { state: share_state(&self.state) }
    }
}

impl KvsEngine for KvStore {
    fn set(&self, key: String, value: String) -> Result<(), KvsError> {
        KvStore::set(self, key, value)
    }

    fn get(&self, key: String) -> Result<Option<String>, KvsError> {
        KvStore::get(self, key)
    }

    fn remove(&self, key: String) -> Result<Option<()>, KvsError> {
        KvStore::remove(self, key)
    }
}

/// The reply owed to a read, for each outcome the engine can return:
/// the value as a string reply, `"Key not found"` when the key holds
/// nothing, and the failure's text otherwise.
pub fn get_reply(result: Result<Option<String>, KvsError>) -> (reply: Message)
    ensures
        match result {
            Ok(found) => match found {
                Some(v) => reply@ == MessageView::String(v@),
                None => reply@ == MessageView::Error("Key not found"@),
            },
            Err(e) => reply@ == MessageView::Error(errors::spec_text(e)),
        },
{
    match result {
        Ok(None) => Message::Error("Key not found".to_owned()),
        Ok(Some(value)) => Message::String(value),
        Err(err) => Message::Error(err.text()),
    }
}

/// The reply owed to a write, for each outcome the engine can
/// return: `"ok"` on success, the failure's text otherwise.
pub fn set_reply(result: Result<(), KvsError>) -> (reply: Message)
    ensures
        match result {
            Ok(()) => reply@ == MessageView::String("ok"@),
            Err(e) => reply@ == MessageView::Error(errors::spec_text(e)),
        },
{
    match result {
        Ok(()) => Message::String("ok".to_owned()),
        Err(err) => Message::Error(err.text()),
    }
}

/// The reply owed to a removal, for each outcome the engine can
/// return: `"ok"` on success, the failure's text otherwise — for a
/// key that held nothing, `"Key not found"`.
pub fn remove_reply(result: Result<Option<()>, KvsError>) -> (reply: Message)
    ensures
        match result {
            Ok(_) => reply@ == MessageView::String("ok"@),
            Err(e) => reply@ == MessageView::Error(errors::spec_text(e)),
        },
{
    match result {
        Ok(_) => Message::String("ok".to_owned()),
        Err(err) => Message::Error(err.text()),
    }
}

/// Serves one decoded request: dispatches a command to the store and
/// builds the one reply frame's message.  A non-command message, or a
/// command naming no operation, is answered with an error reply; the
/// reply is never itself a command.  Which reply each engine outcome
/// earns is fixed by [`get_reply`], [`set_reply`] and
/// [`remove_reply`].
pub fn handle_request(store: &KvStore, msg: Message) -> (reply: Message)
    ensures
        !(reply@ is Command),
        match msg@ {
            MessageView::Command(c) => match c.action {
                Action::Get => reply@ is String || reply@ == MessageView::Error("Key not found"@),
                Action::Put => reply@ == MessageView::String("ok"@),
                Action::Remove => reply@ == MessageView::String("ok"@) || reply@
                    == MessageView::Error("Key not found"@),
                Action::Noop => reply@ == MessageView::Error("invalid Action"@),
            },
            _ => reply@ == MessageView::Error("Invalid message"@),
        },
{
    match msg {
        Message::Command(cmd) => match cmd.action {
            Action::Get => get_reply(store.get(cmd.key)),
            Action::Put => set_reply(store.set(cmd.key, cmd.value)),
            Action::Remove => remove_reply(store.remove(cmd.key)),
            Action::Noop => Message::Error("invalid Action".to_owned()),
        },
        Message::Error(_) => Message::Error("Invalid message".to_owned()),
        Message::String(_) => Message::Error("Invalid message".to_owned()),
    }
}

/// The message-type value carried in a frame's header.
pub open spec fn spec_msg_type(m: MessageView) -> u32 {
    match m {
        MessageView::Command(_) => COMMAND_MESSAGE,
        MessageView::Error(_) => ERROR_MESSAGE,
        MessageView::String(_) => STRING_MESSAGE,
    }
}

/// The payload bytes of a frame: a command's record encoding, or the
/// UTF-8 bytes of a text.
pub open spec fn spec_payload(m: MessageView) -> Seq<u8> {
    match m {
        MessageView::Command(c) => codec::spec_encode_command(c),
        MessageView::Error(t) => vstd::utf8::encode_utf8(t),
        MessageView::String(t) => vstd::utf8::encode_utf8(t),
    }
}

/// One whole frame: 4 bytes of message type, 4 bytes of payload
/// length, both big-endian, then the payload.
pub open spec fn spec_frame(m: MessageView) -> Seq<u8> {
    codec::spec_u32_be(spec_msg_type(m)) + codec::spec_u32_be(spec_payload(m).len() as u32)
        + spec_payload(m)
}

/// The message read from the front of `s`, with the frame's total
/// length, or the error that rejects the frame: `Truncated` when the
/// bytes end before the header or the declared payload does,
/// `Oversized` when the declared length exceeds the frame size limit,
/// `UnknownType` for an unrecognized message-type value, and
/// `Malformed` when the payload fails to parse as its declared kind.
pub open spec fn spec_read_message(s: Seq<u8>) -> Result<(MessageView, int), KvsError> {
    if s.len() < 8 {
        Err(KvsError::Protocol(ProtocolFault::Truncated))
    } else {
        let mtype = codec::spec_u32_of_be(s[0], s[1], s[2], s[3]);
        let plen = codec::spec_u32_of_be(s[4], s[5], s[6], s[7]) as int;
        if plen > BUFFER_SIZE {
            Err(KvsError::Protocol(ProtocolFault::Oversized))
        } else if s.len() < 8 + plen {
            Err(KvsError::Protocol(ProtocolFault::Truncated))
        } else {
            let payload = s.subrange(8, 8 + plen);
            if mtype == COMMAND_MESSAGE {
                match codec::spec_parse_command(payload) {
                    Some((c, n)) => if n == plen {
                        Ok((MessageView::Command(c), 8 + plen))
                    } else {
                        Err(KvsError::Protocol(ProtocolFault::Malformed))
                    },
                    None => Err(KvsError::Protocol(ProtocolFault::Malformed)),
                }
            } else if mtype == ERROR_MESSAGE {
                if vstd::utf8::valid_utf8(payload) {
                    Ok((MessageView::Error(vstd::utf8::decode_utf8(payload)), 8 + plen))
                } else {
                    Err(KvsError::Protocol(ProtocolFault::Malformed))
                }
            } else if mtype == STRING_MESSAGE {
                if vstd::utf8::valid_utf8(payload) {
                    Ok((MessageView::String(vstd::utf8::decode_utf8(payload)), 8 + plen))
                } else {
                    Err(KvsError::Protocol(ProtocolFault::Malformed))
                }
            } else {
                Err(KvsError::Protocol(ProtocolFault::UnknownType))
            }
        }
    }
}

/// Appends one frame carrying `message` to `writer`, or fails with
/// `Encoding`, writing nothing, when the payload would exceed the
/// frame size limit.
pub fn write_message(writer: &mut Vec<u8>, message: &Message) -> (r: Result<(), KvsError>)
    ensures
        match r {
            Ok(()) => spec_payload(message@).len() <= BUFFER_SIZE && final(writer)@ == old(
                writer,
            )@ + spec_frame(message@),
            Err(e) => {
                &&& e == KvsError::Encoding
                &&& spec_payload(message@).len() > BUFFER_SIZE
                &&& final(writer)@ == old(writer)@
            },
        },
{
    let (message_type, content): (u32, Vec<u8>) = match message {
        Message::Command(cmd) => {
            let mut enc: Vec<u8> = Vec::new();
            codec::encode_command(cmd, &mut enc);
            (COMMAND_MESSAGE, enc)
        },
        Message::Error(err) => (
            ERROR_MESSAGE,
            vstd::slice::slice_to_vec(err.as_str().as_bytes()),
        ),
        Message::String(text) => (
            STRING_MESSAGE,
            vstd::slice::slice_to_vec(text.as_str().as_bytes()),
        ),
    };
    assert(content@ == spec_payload(message@));
    if content.len() > BUFFER_SIZE {
        return Err(KvsError::Encoding);
    }
    codec::push_u32_be(writer, message_type);
    codec::push_u32_be(writer, content.len() as u32);
    writer.extend_from_slice(content.as_slice());
    assert(writer@ =~= old(writer)@ + spec_frame(message@));
    Ok(())
}

/// Reads one frame from the front of `buf` and returns its message
/// and the frame's total length in bytes.
pub fn read_message(buf: &Vec<u8>) -> (r: Result<(Message, usize), KvsError>)
    ensures
        match r {
            Ok((m, n)) => spec_read_message(buf@) matches Ok(p) && p.0 == m@ && p.1 == n as int,
            Err(e) => spec_read_message(buf@) == Err::<(MessageView, int), KvsError>(e),
        },
{
    let n = buf.len();
    if n < 8 {
        return Err(KvsError::Protocol(ProtocolFault::Truncated));
    }
    let mtype = codec::read_u32_be(buf[0], buf[1], buf[2], buf[3]);
    let plen32 = codec::read_u32_be(buf[4], buf[5], buf[6], buf[7]);
    if plen32 > BUFFER_SIZE as u32 {
        return Err(KvsError::Protocol(ProtocolFault::Oversized));
    }
    let plen = plen32 as usize;
    if n < 8 + plen {
        return Err(KvsError::Protocol(ProtocolFault::Truncated));
    }
    let payload = vstd::slice::slice_to_vec(
        vstd::slice::slice_subrange(buf.as_slice(), 8, 8 + plen),
    );
    if mtype == COMMAND_MESSAGE {
        match codec::parse_command_at(&payload, 0) {
            Some((cmd, end)) => {
                if end == plen {
                    proof {
                        assert(payload@.subrange(0, payload@.len() as int) =~= payload@);
                    }
                    Ok((Message::Command(cmd), 8 + plen))
                } else {
                    proof {
                        assert(payload@.subrange(0, payload@.len() as int) =~= payload@);
                    }
                    Err(KvsError::Protocol(ProtocolFault::Malformed))
                }
            },
            None => {
                proof {
                    assert(payload@.subrange(0, payload@.len() as int) =~= payload@);
                }
                Err(KvsError::Protocol(ProtocolFault::Malformed))
            },
        }
    } else if mtype == ERROR_MESSAGE {
        match codec::bytes_to_string(payload) {
            Some(text) => Ok((Message::Error(text), 8 + plen)),
            None => Err(KvsError::Protocol(ProtocolFault::Malformed)),
        }
    } else if mtype == STRING_MESSAGE {
        match codec::bytes_to_string(payload) {
            Some(text) => Ok((Message::String(text), 8 + plen)),
            None => Err(KvsError::Protocol(ProtocolFault::Malformed)),
        }
    } else {
        Err(KvsError::Protocol(ProtocolFault::UnknownType))
    }
}

/// How many bytes the frame starting at the front of `buf` occupies
/// in all, read from its header: what a caller must have before
/// `read_message` can see the whole frame.
pub fn frame_total_len(buf: &Vec<u8>) -> (r: Result<usize, KvsError>)
    ensures
        match r {
            Ok(n) => {
                &&& buf@.len() >= 8
                &&& n == 8 + codec::spec_u32_of_be(buf@[4], buf@[5], buf@[6], buf@[7])
                &&& n <= 8 + BUFFER_SIZE
            },
            Err(e) => {
                ||| (e == KvsError::Protocol(ProtocolFault::Truncated) && buf@.len() < 8)
                ||| (e == KvsError::Protocol(ProtocolFault::Oversized) && buf@.len() >= 8
                    && codec::spec_u32_of_be(buf@[4], buf@[5], buf@[6], buf@[7]) > BUFFER_SIZE)
            },
        },
{
    if buf.len() < 8 {
        return Err(KvsError::Protocol(ProtocolFault::Truncated));
    }
    let plen32 = codec::read_u32_be(buf[4], buf[5], buf[6], buf[7]);
    if plen32 > BUFFER_SIZE as u32 {
        return Err(KvsError::Protocol(ProtocolFault::Oversized));
    }
    Ok(8 + plen32 as usize)
}

/// Round trip: reading back an encoded frame yields the message that
/// was written.  This holds for every message whose payload fits the
/// frame size limit; a larger one is never encoded, since
/// `write_message` rejects it.
pub proof fn lemma_message_round_trip(m: MessageView)
    requires
        spec_payload(m).len() <= BUFFER_SIZE,
    ensures
        spec_read_message(spec_frame(m)) == Ok::<(MessageView, int), KvsError>(
            (m, spec_frame(m).len() as int),
        ),
{
    broadcast use vstd::utf8::encode_utf8_valid_utf8, vstd::utf8::encode_utf8_decode_utf8;

    let payload = spec_payload(m);
    let plen = payload.len() as int;
    let tb = codec::spec_u32_be(spec_msg_type(m));
    let lb = codec::spec_u32_be(plen as u32);
    let s = spec_frame(m);
    assert(s.len() == 8 + plen);
    assert forall|i: int| 0 <= i < 4 implies s[i] == tb[i] && s[4 + i] == lb[i] by {}
    codec::lemma_u32_be_round_trip(spec_msg_type(m));
    codec::lemma_u32_be_round_trip(plen as u32);
    assert(codec::spec_u32_of_be(s[0], s[1], s[2], s[3]) == spec_msg_type(m));
    assert(codec::spec_u32_of_be(s[4], s[5], s[6], s[7]) == plen as u32);
    assert(s.subrange(8, 8 + plen) =~= payload);
    match m {
        MessageView::Command(c) => {
            assert(payload.len() == 17 + encode_utf8(c.key).len() + encode_utf8(c.value).len());
            assert(codec::cmd_wf(c));
            codec::lemma_parse_encode_command(c, Seq::empty());
            assert(codec::spec_encode_command(c) + Seq::<u8>::empty() =~= codec::spec_encode_command(c));
        },
        MessageView::Error(_) => {},
        MessageView::String(_) => {},
    }
}

} // verus!
