//! A RouterOS API session: what to send for a login or a command, and what
//! each reply sentence means. The connection itself (TCP or TLS) is driven by
//! the caller, which sends the bytes these functions give and hands back every
//! sentence it reads.
use vstd::prelude::*;
use crate::attrs::{attrs_of, parse_attrs, Attrs};
use crate::bytes::{bytes_eq, concat, has_prefix, starts_with, str_bytes, text};
use crate::wire::{encode_sentence, spec_encode_sentence, words_view};

verus! {

/// Why a RouterOS request failed.
#[derive(Debug)]
pub enum RosError {
    /// The login was answered with `!trap`; the message it gave.
    LoginFailed(Vec<u8>),
    /// The login was answered with neither `!done` nor `!trap`; the first
    /// word of the reply, if it had one.
    UnexpectedLoginReply(Option<Vec<u8>>),
    /// A command was answered with `!trap`; the message it gave.
    Trap(Vec<u8>),
}

/// A `RosError` as a spec value.
pub enum SpecRosError {
    LoginFailed(Seq<u8>),
    UnexpectedLoginReply(Option<Seq<u8>>),
    Trap(Seq<u8>),
}

impl RosError {
    pub open spec fn spec_view(&self) -> SpecRosError {
        match self {
            RosError::LoginFailed(m) => SpecRosError::LoginFailed(m@),
            RosError::UnexpectedLoginReply(w) => SpecRosError::UnexpectedLoginReply(
                match w {
                    Some(w) => Some(w@),
                    None => None,
                },
            ),
            RosError::Trap(m) => SpecRosError::Trap(m@),
        }
    }
}

/// What a session waits for.
pub enum SessionState {
    /// Nothing has been sent that is not answered.
    Idle,
    /// The reply to a login.
    Login,
    /// The rest of the replies to a command; the rows received so far.
    Command(Seq<Seq<(Seq<u8>, Seq<u8>)>>),
}

/// The result of one reply sentence, as a spec value.
pub enum SpecProgress {
    Awaiting,
    Done(Seq<Seq<(Seq<u8>, Seq<u8>)>>),
    Failed(SpecRosError),
}

/// The result of one reply sentence.
pub enum Progress {
    /// The request is not answered yet: read the next sentence.
    Awaiting,
    /// The request succeeded; the rows (`!re` sentences) a command returned.
    Done(Vec<Attrs>),
    /// The request failed.
    Failed(RosError),
}

/// The rows a list of attribute sets holds.
pub open spec fn rows_view(rows: Seq<Attrs>) -> Seq<Seq<(Seq<u8>, Seq<u8>)>> {
    rows.map_values(|a: Attrs| a@)
}

impl Progress {
    pub open spec fn spec_view(&self) -> SpecProgress {
        match self {
            Progress::Awaiting => SpecProgress::Awaiting,
            Progress::Done(rows) => SpecProgress::Done(rows_view(rows@)),
            Progress::Failed(e) => SpecProgress::Failed(e.spec_view()),
        }
    }
}

/// The message of a `!trap` reply: the rest of the first word that starts
/// with `=message=`.
pub open spec fn message_of(ws: Seq<Seq<u8>>) -> Option<Seq<u8>>
    decreases ws.len(),
{
    if ws.len() == 0 {
        None
    } else if has_prefix(ws[0], text("=message=")) {
        Some(ws[0].skip(text("=message=").len() as int))
    } else {
        message_of(ws.drop_first())
    }
}

/// The message of a `!trap` reply, or `unknown error` when it gives none.
pub open spec fn trap_message(ws: Seq<Seq<u8>>) -> Seq<u8> {
    match message_of(ws) {
        Some(m) => m,
        None => text("unknown error"),
    }
}

/// The sentence that logs in `user` with `password`.
pub open spec fn login_words(user: Seq<u8>, password: Seq<u8>) -> Seq<Seq<u8>> {
    seq![text("/login"), text("=name=") + user, text("=password=") + password]
}

/// What one reply sentence means in state `st`, and the state after it.
///
/// A login is answered by one sentence: `!done` accepts it, `!trap` refuses it
/// with a message, anything else is unexpected. A command is answered by `!re`
/// sentences, each a row of attributes, until `!done` ends it or `!trap`
/// fails it; other sentences are passed over.
pub open spec fn spec_receive(st: SessionState, reply: Seq<Seq<u8>>) -> (SpecProgress, SessionState) {
    match st {
        SessionState::Login => {
            if reply.len() > 0 && reply[0] == text("!done") {
                (SpecProgress::Done(Seq::empty()), SessionState::Idle)
            } else if reply.len() > 0 && reply[0] == text("!trap") {
                (
                    SpecProgress::Failed(SpecRosError::LoginFailed(trap_message(reply))),
                    SessionState::Idle,
                )
            } else {
                (
                    SpecProgress::Failed(
                        SpecRosError::UnexpectedLoginReply(
                            if reply.len() > 0 {
                                Some(reply[0])
                            } else {
                                None
                            },
                        ),
                    ),
                    SessionState::Idle,
                )
            }
        },
        SessionState::Command(rows) => {
            if reply.len() > 0 && reply[0] == text("!done") {
                (SpecProgress::Done(rows), SessionState::Idle)
            } else if reply.len() > 0 && reply[0] == text("!re") {
                (SpecProgress::Awaiting, SessionState::Command(rows.push(attrs_of(reply.drop_first()))))
            } else if reply.len() > 0 && reply[0] == text("!trap") {
                (SpecProgress::Failed(SpecRosError::Trap(trap_message(reply))), SessionState::Idle)
            } else {
                (SpecProgress::Awaiting, SessionState::Command(rows))
            }
        },
        SessionState::Idle => (SpecProgress::Awaiting, SessionState::Idle),
    }
}

enum Pending {
    Idle,
    Login,
    Command(Vec<Attrs>),
}

/// A RouterOS API session: what it has asked and not yet had answered.
pub struct RosSession {
    pending: Pending,
}

/// The first `=message=` word of a reply, without that prefix.
fn find_message(reply: &Vec<Vec<u8>>) -> (r: Vec<u8>)
    ensures
        r@ == trap_message(words_view(reply@)),
{
    let prefix = str_bytes("=message=");
    let mut i: usize = 0;
    assert(words_view(reply@).skip(0) =~= words_view(reply@));
    while i < reply.len()
        invariant
            i <= reply@.len(),
            prefix@ == text("=message="),
            message_of(words_view(reply@)) == message_of(words_view(reply@).skip(i as int)),
        decreases reply.len() - i,
    {
        let ghost rest = words_view(reply@).skip(i as int);
        assert(rest[0] == reply@[i as int]@);
        assert(rest.drop_first() =~= words_view(reply@).skip(i + 1));
        if starts_with(reply[i].as_slice(), prefix.as_slice()) {
            let w = reply[i].as_slice();
            let m = vstd::slice::slice_to_vec(vstd::slice::slice_subrange(w, prefix.len(), w.len()));
            assert(m@ =~= rest[0].skip(text("=message=").len() as int));
            return m;
        }
        i = i + 1;
    }
    assert(words_view(reply@).skip(i as int) =~= Seq::<Seq<u8>>::empty());
    str_bytes("unknown error")
}

/// Whether the first word of `reply` is `lit`.
fn first_word_is(reply: &Vec<Vec<u8>>, lit: &str) -> (r: bool)
    ensures
        r == (reply@.len() > 0 && reply@[0]@ == text(lit)),
{
    if reply.len() == 0 {
        return false;
    }
    let l = lit.as_bytes();
    bytes_eq(reply[0].as_slice(), l)
}

impl RosSession {
    /// What the session waits for.
    pub closed spec fn state(&self) -> SessionState {
        match self.pending {
            Pending::Idle => SessionState::Idle,
            Pending::Login => SessionState::Login,
            Pending::Command(rows) => SessionState::Command(rows_view(rows@)),
        }
    }

    /// Whether a request is sent and not yet answered.
    pub open spec fn is_awaiting(&self) -> bool {
        !(self.state() is Idle)
    }

    /// A session on a fresh connection.
    pub fn new() -> (r: RosSession)
        ensures
            r.state() is Idle,
    {
        RosSession { pending: Pending::Idle }
    }

    /// Whether a request is sent and not yet answered.
    pub fn awaiting(&self) -> (r: bool)
        ensures
            r == self.is_awaiting(),
    {
        match self.pending {
            Pending::Idle => false,
            _ => true,
        }
    }

    /// Logs in: the bytes of the `/login` sentence to send; the session then
    /// waits for its reply.
    pub fn login(&mut self, user: &[u8], password: &[u8]) -> (r: Vec<u8>)
        ensures
            r@ == spec_encode_sentence(login_words(user@, password@)),
            final(self).state() is Login,
    {
        let mut words: Vec<Vec<u8>> = Vec::new();
        words.push(str_bytes("/login"));
        let name = concat(str_bytes("=name=").as_slice(), user);
        words.push(name);
        let pass = concat(str_bytes("=password=").as_slice(), password);
        words.push(pass);
        assert(words_view(words@)[1] == words@[1]@);
        assert(words_view(words@)[2] == words@[2]@);
        assert(words_view(words@)[0] == words@[0]@);
        assert(words_view(words@) =~= login_words(user@, password@));
        self.pending = Pending::Login;
        encode_sentence(&words)
    }

    /// Runs a command: the bytes of its sentence to send; the session then
    /// collects the rows of the replies.
    pub fn run(&mut self, words: &Vec<Vec<u8>>) -> (r: Vec<u8>)
        ensures
            r@ == spec_encode_sentence(words_view(words@)),
            final(self).state() == SessionState::Command(Seq::empty()),
    {
        self.pending = Pending::Command(Vec::new());
        proof {
            assert(rows_view(Seq::<Attrs>::empty()) =~= Seq::empty());
        }
        encode_sentence(words)
    }

    /// Runs a command whose rows are of no interest: sent and answered as `run`.
    pub fn exec(&mut self, words: &Vec<Vec<u8>>) -> (r: Vec<u8>)
        ensures
            r@ == spec_encode_sentence(words_view(words@)),
            final(self).state() == SessionState::Command(Seq::empty()),
    {
        self.run(words)
    }

    /// Takes in one reply sentence and says what it means for the request
    /// that waits for it.
    pub fn receive(&mut self, reply: &Vec<Vec<u8>>) -> (r: Progress)
        requires
            old(self).is_awaiting(),
        ensures
            r.spec_view() == spec_receive(old(self).state(), words_view(reply@)).0,
            final(self).state() == spec_receive(old(self).state(), words_view(reply@)).1,
    {
        let ghost ws = words_view(reply@);
        proof {
            if reply@.len() > 0 {
                assert(ws[0] == reply@[0]@);
            }
        }
        let mut pending = Pending::Idle;
        std::mem::swap(&mut pending, &mut self.pending);
        match pending {
            Pending::Idle => Progress::Awaiting,
            Pending::Login => {
                if first_word_is(reply, "!done") {
                    proof {
                        assert(rows_view(Seq::<Attrs>::empty()) =~= Seq::empty());
                    }
                    Progress::Done(Vec::new())
                } else if first_word_is(reply, "!trap") {
                    Progress::Failed(RosError::LoginFailed(find_message(reply)))
                } else if reply.len() > 0 {
                    Progress::Failed(RosError::UnexpectedLoginReply(Some(reply[0].clone())))
                } else {
                    Progress::Failed(RosError::UnexpectedLoginReply(None))
                }
            },
            Pending::Command(rows) => {
                let mut rows = rows;
                if first_word_is(reply, "!done") {
                    Progress::Done(rows)
                } else if first_word_is(reply, "!re") {
                    let ghost before = rows_view(rows@);
                    let tail = vstd::slice::slice_subrange(reply.as_slice(), 1, reply.len());
                    assert(words_view(tail@) =~= ws.drop_first());
                    rows.push(parse_attrs(tail));
                    assert(rows_view(rows@) =~= before.push(attrs_of(ws.drop_first())));
                    self.pending = Pending::Command(rows);
                    Progress::Awaiting
                } else if first_word_is(reply, "!trap") {
                    Progress::Failed(RosError::Trap(find_message(reply)))
                } else {
                    self.pending = Pending::Command(rows);
                    Progress::Awaiting
                }
            },
        }
    }
}


/// The rows of the `!re` sentences among `replies`, in order: each is the
/// attributes of the words after `!re`.
pub open spec fn re_rows(replies: Seq<Seq<Seq<u8>>>) -> Seq<Seq<(Seq<u8>, Seq<u8>)>>
    decreases replies.len(),
{
    if replies.len() == 0 {
        Seq::empty()
    } else {
        let last = replies.last();
        if last.len() > 0 && last[0] == text("!re") {
            re_rows(replies.drop_last()).push(attrs_of(last.drop_first()))
        } else {
            re_rows(replies.drop_last())
        }
    }
}

/// A reply that neither ends nor fails a command (it starts with neither
/// `!done` nor `!trap`).
pub open spec fn continues(reply: Seq<Seq<u8>>) -> bool {
    !(reply.len() > 0 && (reply[0] == text("!done") || reply[0] == text("!trap")))
}

/// The state of a session after it has taken in `replies` one by one.
pub open spec fn after_replies(st: SessionState, replies: Seq<Seq<Seq<u8>>>) -> SessionState
    decreases replies.len(),
{
    if replies.len() == 0 {
        st
    } else {
        spec_receive(after_replies(st, replies.drop_last()), replies.last()).1
    }
}

proof fn lemma_reply_words_distinct()
    ensures
        text("!done") != text("!re"),
        text("!trap") != text("!re"),
{
    reveal_strlit("!done");
    reveal_strlit("!re");
    reveal_strlit("!trap");
    vstd::string::is_ascii_spec_bytes("!done");
    vstd::string::is_ascii_spec_bytes("!re");
    vstd::string::is_ascii_spec_bytes("!trap");
    assert(text("!done").len() == 5);
    assert(text("!re").len() == 3);
    assert(text("!trap").len() == 5);
}

/// While a command runs, each `!re` sentence adds its attributes as one more
/// row and every other sentence that neither ends nor fails it adds nothing.
pub proof fn lemma_rows_collected(rows: Seq<Seq<(Seq<u8>, Seq<u8>)>>, replies: Seq<Seq<Seq<u8>>>)
    requires
        forall|i: int| 0 <= i < replies.len() ==> continues(#[trigger] replies[i]),
    ensures
        after_replies(SessionState::Command(rows), replies) == SessionState::Command(
            rows + re_rows(replies),
        ),
    decreases replies.len(),
{
    lemma_reply_words_distinct();
    if replies.len() == 0 {
        assert(rows + Seq::<Seq<(Seq<u8>, Seq<u8>)>>::empty() =~= rows);
    } else {
        let init = replies.drop_last();
        assert forall|i: int| 0 <= i < init.len() implies continues(#[trigger] init[i]) by {
            assert(init[i] == replies[i]);
        }
        lemma_rows_collected(rows, init);
        assert(continues(replies[replies.len() - 1]));
        let last = replies.last();
        if last.len() > 0 && last[0] == text("!re") {
            assert(rows + re_rows(init).push(attrs_of(last.drop_first())) =~= (rows + re_rows(
                init,
            )).push(attrs_of(last.drop_first())));
        }
    }
}

/// A command's result is exactly the rows of its `!re` sentences, in order:
/// the `!done` that ends it adds no row, whatever words follow `!done`.
pub proof fn lemma_command_result(replies: Seq<Seq<Seq<u8>>>, done: Seq<Seq<u8>>)
    requires
        forall|i: int| 0 <= i < replies.len() ==> continues(#[trigger] replies[i]),
        done.len() > 0,
        done[0] == text("!done"),
    ensures
        spec_receive(after_replies(SessionState::Command(Seq::empty()), replies), done)
            == (SpecProgress::Done(re_rows(replies)), SessionState::Idle),
{
    lemma_rows_collected(Seq::empty(), replies);
    assert(Seq::<Seq<(Seq<u8>, Seq<u8>)>>::empty() + re_rows(replies) =~= re_rows(replies));
}

} // verus!
