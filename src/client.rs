//! The chat session: its state, its handshake, outbound framing and the
//! messages taken from the inbound byte stream.
//!
//! The session does no I/O itself. Whoever owns the connection writes the
//! bytes that `send_raw` returns, hands every read to `receive`, and calls
//! `next_message` until it yields `Ok(None)`, which asks for more bytes.
use vstd::prelude::*;
use vstd::utf8::*;
use crate::error::{ClientError, ClientResult};
use crate::framing::{
    FrameBuffer, crlf_at, crlf_index, split_lines, split_lines_fed, concat_chunks,
    lemma_crlf_index, lemma_crlf_index_unique, lemma_framing_chunk_independent,
};
use crate::message::{
    Message, parse_line, parse_message, line_of, well_formed, lemma_message_round_trip,
};

verus! {

/// Where a session is in its life.
#[derive(PartialEq, Eq, Structural, Clone, Copy, Debug)]
pub enum SessionState {
    /// No connection: nothing can be sent or received.
    Disconnected,
    /// The connection is open.
    Connected,
    /// The peer closed the connection.
    Closed,
}

/// A chat session.
pub struct Client {
    nick: String,
    oauth: String,
    state: SessionState,
    buf: FrameBuffer,
}

/// What a session holds.
pub struct ClientView {
    pub nick: Seq<char>,
    pub oauth: Seq<char>,
    pub state: SessionState,
    /// Received bytes not yet taken out as lines.
    pub pending: Seq<u8>,
}

impl View for Client {
    type V = ClientView;

    closed spec fn view(&self) -> ClientView {
        ClientView { nick: self.nick@, oauth: self.oauth@, state: self.state, pending: self.buf@ }
    }
}

/// The bytes that carry one outbound line: its text, then CR LF.
pub open spec fn outbound_bytes(s: Seq<char>) -> Seq<u8> {
    encode_utf8(s) + seq![13u8, 10u8]
}

impl Client {
    /// A disconnected session with the anonymous login.
    pub fn new() -> (r: Client)
        ensures
            r@.nick == "justinfan457512"@,
            r@.oauth == "blah"@,
            r@.state == SessionState::Disconnected,
            r@.pending == Seq::<u8>::empty(),
    {
        Client {
            nick: String::from_str("justinfan457512"),
            oauth: String::from_str("blah"),
            state: SessionState::Disconnected,
            buf: FrameBuffer::new(),
        }
    }

    /// Sets the login that the next handshake sends.
    pub fn set_login(&mut self, nick: String, oauth: String)
        ensures
            final(self)@ == (ClientView { nick: nick@, oauth: oauth@, ..old(self)@ }),
    {
        self.nick = nick;
        self.oauth = oauth;
    }

    /// Where the session is.
    pub fn state(&self) -> (r: SessionState)
        ensures
            r == self@.state,
    {
        self.state
    }

    /// The connection is open: the session starts with nothing received.
    pub fn connected(&mut self)
        ensures
            final(self)@ == (ClientView {
                state: SessionState::Connected,
                pending: Seq::empty(),
                ..old(self)@
            }),
    {
        self.state = SessionState::Connected;
        self.buf = FrameBuffer::new();
    }

    /// The connection could not be set up, or was dropped by this side.
    pub fn disconnected(&mut self)
        ensures
            final(self)@ == (ClientView { state: SessionState::Disconnected, ..old(self)@ }),
    {
        self.state = SessionState::Disconnected;
    }

    /// The peer closed the connection.
    pub fn closed(&mut self)
        ensures
            final(self)@ == (ClientView { state: SessionState::Closed, ..old(self)@ }),
    {
        self.state = SessionState::Closed;
    }

    /// The lines of the handshake, in the order they are sent: the capability
    /// request, the credential, the identity.
    pub fn handshake(&self) -> (r: Vec<String>)
        ensures
            r@.len() == 3,
            r@[0]@ == "CAP REQ :twitch.tv/commands twitch.tv/tags"@,
            r@[1]@ == "PASS "@ + self@.oauth,
            r@[2]@ == "NICK "@ + self@.nick,
    {
        let cap = String::from_str("CAP REQ :twitch.tv/commands twitch.tv/tags");
        let mut pass = String::from_str("PASS ");
        pass.append(self.oauth.as_str());
        let mut nick = String::from_str("NICK ");
        nick.append(self.nick.as_str());
        vec![cap, pass, nick]
    }

    /// The bytes to write for the line `s`: refused while disconnected.
    pub fn send_raw(&self, s: &str) -> (r: ClientResult<Vec<u8>>)
        ensures
            self@.state == SessionState::Disconnected <==> r is Err,
            r is Err ==> r->Err_0 is InvalidStateError && r->Err_0->InvalidStateError_0@
                == "Socket not connected"@,
            r is Ok ==> r->Ok_0@ == outbound_bytes(s@),
    {
        if self.state == SessionState::Disconnected {
            return Err(ClientError::InvalidStateError("Socket not connected"));
        }
        let mut out: Vec<u8> = Vec::new();
        out.extend_from_slice(s.as_bytes());
        out.push(13u8);
        out.push(10u8);
        assert(out@ =~= outbound_bytes(s@));
        Ok(out)
    }

    /// Takes in bytes read from the connection.
    pub fn receive(&mut self, data: &[u8])
        ensures
            final(self)@ == (ClientView { pending: old(self)@.pending + data@, ..old(self)@ }),
    {
        self.buf.feed(data);
    }

    /// The next message: refused while disconnected; `Ok(None)` when no
    /// complete line has been received yet (nothing is taken then); else the
    /// first line is taken out and parsed.
    pub fn next_message(&mut self) -> (r: ClientResult<Option<Message>>)
        ensures
            old(self)@.state == SessionState::Disconnected ==> r is Err && r->Err_0 is InvalidStateError
                && r->Err_0->InvalidStateError_0@ == "Socket not connected"@ && final(self)@ == old(
                self,
            )@,
            old(self)@.state != SessionState::Disconnected ==> {
                let p = old(self)@.pending;
                let i = crlf_index(p);
                if i < p.len() {
                    let line = p.subrange(0, i as int);
                    &&& final(self)@ == (ClientView {
                        pending: p.subrange(i + 2int, p.len() as int),
                        ..old(self)@
                    })
                    &&& line == split_lines(p).0[0]
                    &&& split_lines(final(self)@.pending).0 == split_lines(p).0.drop_first()
                    &&& split_lines(final(self)@.pending).1 == split_lines(p).1
                    &&& (r is Ok <==> valid_utf8(line) && parse_line(line) is Some)
                    &&& (r is Ok ==> r->Ok_0 is Some && parse_line(line) == Some(
                        r->Ok_0->Some_0.wire(),
                    ))
                    &&& (r is Err ==> r->Err_0 is ParsingError)
                } else {
                    &&& r is Ok && r->Ok_0 is None && final(self)@ == old(self)@
                    &&& split_lines(p).0.len() == 0
                    &&& split_lines(p).1 == p
                }
            },
    {
        if self.state == SessionState::Disconnected {
            return Err(ClientError::InvalidStateError("Socket not connected"));
        }
        let ghost p = self.buf@;
        match self.buf.next_line() {
            Some(line) => {
                assert(split_lines(p).0[0] == line@);
                assert(split_lines(self.buf@).0 =~= split_lines(p).0.drop_first());
                match parse_message(line.as_slice()) {
                    Ok(m) => Ok(Some(m)),
                    Err(e) => Err(e),
                }
            },
            None => {
                proof {
                    lemma_crlf_index(p);
                }
                Ok(None)
            },
        }
    }
}

/// The lines a session hands out do not depend on how the stream was cut.
/// After each `receive`, `next_message` takes the first line of the pending
/// bytes until it yields `Ok(None)`; the pending bytes are then what follows
/// their last CR LF. So the lines taken after chunk after chunk are
/// `split_lines_fed` of the chunks, and these are the lines of all the bytes
/// put end to end, with the same bytes left over.
pub proof fn lemma_session_lines(chunks: Seq<Seq<u8>>)
    ensures
        split_lines_fed(chunks) == split_lines(concat_chunks(chunks)),
{
    lemma_framing_chunk_independent(chunks);
}

/// A well-formed message whose line holds no CR, written with its CR LF and
/// received by a session, is one line, which `next_message` parses back into
/// a message equal to it.
pub proof fn lemma_session_round_trip(m: Message)
    requires
        well_formed(m.wire()),
        forall|j: int| 0 <= j < line_of(m.wire()).len() ==> line_of(m.wire())[j] != 13u8,
    ensures
        split_lines(line_of(m.wire()) + seq![13u8, 10u8]) == (
            seq![line_of(m.wire())],
            Seq::<u8>::empty(),
        ),
        valid_utf8(line_of(m.wire())),
        parse_line(line_of(m.wire())) == Some(m.wire()),
{
    let l = line_of(m.wire());
    let s = l + seq![13u8, 10u8];
    assert forall|j: int| 0 <= j < l.len() implies !crlf_at(s, j) by {
        assert(s[j] == l[j]);
    }
    assert(crlf_at(s, l.len() as int));
    lemma_crlf_index_unique(s, l.len() as int);
    assert(s.subrange(0, l.len() as int) =~= l);
    assert(s.subrange(l.len() + 2int, s.len() as int) =~= Seq::<u8>::empty());
    assert(split_lines(Seq::<u8>::empty()) == (Seq::<Seq<u8>>::empty(), Seq::<u8>::empty()));
    assert(split_lines(s).0 =~= seq![l]);
    lemma_message_round_trip(m);
}

} // verus!
