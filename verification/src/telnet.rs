//! Telnet sessions: the default port, the option negotiations in what the
//! server sends (taken out of what is shown, and refused in a reply), and
//! what a reader does after each read.
use vstd::prelude::*;


verus! {

/// The port used when none is given.
pub fn telnet_port(port: Option<u16>) -> (r: u16)
    ensures
        r == (match port {
            Some(p) => p,
            None => 23u16,
        }),
{
    match port {
        Some(p) => p,
        None => 23,
    }
}

/// "Interpret as command".
pub const IAC: u8 = 0xFF;

/// Whether `cmd` opens an option negotiation: `DO`, `DONT`, `WILL` or
/// `WONT`.
pub open spec fn is_negotiation(cmd: u8) -> bool {
    cmd == 0xFE || cmd == 0xFD || cmd == 0xFB || cmd == 0xFC
}

/// The refusal sent for a negotiation: `WONT` to a request (`DO`, `DONT`),
/// `DONT` to an offer (`WILL`, `WONT`).
pub open spec fn refusal(cmd: u8) -> u8 {
    if cmd == 0xFE || cmd == 0xFD {
        0xFC
    } else {
        0xFE
    }
}

/// The data shown for `b[i..]`: complete negotiations `IAC cmd x` and other
/// two-byte commands are taken out; every other byte (a lone or incomplete
/// `IAC` too) is kept.
pub open spec fn telnet_shown_from(b: Seq<u8>, i: int) -> Seq<u8>
    decreases b.len() - i,
{
    if i < 0 || i >= b.len() {
        Seq::empty()
    } else if b[i] == 0xFF && i + 1 < b.len() {
        if is_negotiation(b[i + 1]) {
            if i + 2 < b.len() {
                telnet_shown_from(b, i + 3)
            } else {
                seq![b[i]] + telnet_shown_from(b, i + 1)
            }
        } else {
            telnet_shown_from(b, i + 2)
        }
    } else {
        seq![b[i]] + telnet_shown_from(b, i + 1)
    }
}

/// The replies owed for `b[i..]`: `IAC WONT x` for each request
/// `IAC DO x` or `IAC DONT x`, `IAC DONT x` for each offer `IAC WILL x` or
/// `IAC WONT x`, in the order they came.
pub open spec fn telnet_replies_from(b: Seq<u8>, i: int) -> Seq<u8>
    decreases b.len() - i,
{
    if i < 0 || i >= b.len() {
        Seq::empty()
    } else if b[i] == 0xFF && i + 1 < b.len() {
        if is_negotiation(b[i + 1]) {
            if i + 2 < b.len() {
                seq![0xFFu8, refusal(b[i + 1]), b[i + 2]] + telnet_replies_from(b, i + 3)
            } else {
                telnet_replies_from(b, i + 1)
            }
        } else {
            telnet_replies_from(b, i + 2)
        }
    } else {
        telnet_replies_from(b, i + 1)
    }
}

/// The data shown for a chunk read from the server.
pub open spec fn telnet_shown(b: Seq<u8>) -> Seq<u8> {
    telnet_shown_from(b, 0)
}

/// The replies owed to the server for a chunk it sent.
pub open spec fn telnet_replies(b: Seq<u8>) -> Seq<u8> {
    telnet_replies_from(b, 0)
}

/// Data without an `IAC` byte is shown exactly as it came, and asks for no
/// reply.
pub proof fn telnet_plain_data_unchanged(b: Seq<u8>)
    requires
        forall|k: int| 0 <= k < b.len() ==> b[k] != 0xFF,
    ensures
        telnet_shown(b) == b,
        telnet_replies(b) == Seq::<u8>::empty(),
{
    lemma_plain_from(b, 0);
    assert(b.skip(0) =~= b);
}

proof fn lemma_plain_from(b: Seq<u8>, i: int)
    requires
        0 <= i <= b.len(),
        forall|k: int| 0 <= k < b.len() ==> b[k] != 0xFF,
    ensures
        telnet_shown_from(b, i) == b.skip(i),
        telnet_replies_from(b, i) == Seq::<u8>::empty(),
    decreases b.len() - i,
{
    if i < b.len() {
        lemma_plain_from(b, i + 1);
        assert(b.skip(i) =~= seq![b[i]] + b.skip(i + 1));
    } else {
        assert(b.skip(i) =~= Seq::<u8>::empty());
    }
}

/// Together, what is shown of a chunk and the replies it asks for are never
/// longer than the chunk.
pub proof fn telnet_shown_no_longer(b: Seq<u8>)
    ensures
        telnet_shown(b).len() + telnet_replies(b).len() <= b.len(),
{
    lemma_shown_len(b, 0);
}

proof fn lemma_shown_len(b: Seq<u8>, i: int)
    requires
        0 <= i,
    ensures
        telnet_shown_from(b, i).len() + telnet_replies_from(b, i).len() <= if i < b.len() {
            b.len() - i
        } else {
            0
        },
    decreases b.len() - i,
{
    if i < b.len() {
        assert(telnet_shown_from(b, b.len() as int).len() == 0);
        assert(telnet_replies_from(b, b.len() as int).len() == 0);
        lemma_shown_len(b, i + 1);
        if i + 2 <= b.len() {
            lemma_shown_len(b, i + 2);
        }
        if i + 3 <= b.len() {
            lemma_shown_len(b, i + 3);
        }
    }
}

/// Splits a chunk read from the server into the data to show and the
/// replies to write back to the server.
pub fn process_telnet_bytes(buf: &[u8]) -> (r: (Vec<u8>, Vec<u8>))
    ensures
        r.0@ == telnet_shown(buf@),
        r.1@ == telnet_replies(buf@),
{
    let n = buf.len();
    let mut data: Vec<u8> = Vec::new();
    let mut replies: Vec<u8> = Vec::new();
    let mut i: usize = 0;
    while i < n
        invariant
            n == buf@.len(),
            i <= n + 1,
            data@ + telnet_shown_from(buf@, i as int) == telnet_shown(buf@),
            replies@ + telnet_replies_from(buf@, i as int) == telnet_replies(buf@),
        decreases n + 1 - i,
    {
        let ghost before = data@;
        let ghost rbefore = replies@;
        let ghost b = buf@;
        if buf[i] == 0xFF && i + 1 < n {
            let cmd = buf[i + 1];
            if cmd == 0xFE || cmd == 0xFD || cmd == 0xFB || cmd == 0xFC {
                if i + 2 < n {
                    let answer: u8 = if cmd == 0xFE || cmd == 0xFD { 0xFC } else { 0xFE };
                    replies.push(0xFF);
                    replies.push(answer);
                    replies.push(buf[i + 2]);
                    assert(replies@ == rbefore + seq![0xFFu8, answer, b[i + 2]]);
                    assert(rbefore + telnet_replies_from(b, i as int) =~= replies@
                        + telnet_replies_from(b, i + 3));
                    assert(before + telnet_shown_from(b, i as int) =~= data@ + telnet_shown_from(b, i + 3));
                    i = i + 3;
                    continue;
                }
            } else {
                assert(before + telnet_shown_from(b, i as int) =~= data@ + telnet_shown_from(b, i + 2));
                assert(rbefore + telnet_replies_from(b, i as int) =~= replies@
                    + telnet_replies_from(b, i + 2));
                i = i + 2;
                continue;
            }
        }
        data.push(buf[i]);
        assert(before + telnet_shown_from(b, i as int) =~= data@ + telnet_shown_from(b, i + 1));
        assert(rbefore + telnet_replies_from(b, i as int) =~= replies@ + telnet_replies_from(b, i + 1));
        i = i + 1;
    }
    assert(telnet_shown_from(buf@, i as int) =~= Seq::<u8>::empty());
    assert(telnet_replies_from(buf@, i as int) =~= Seq::<u8>::empty());
    assert(data@ =~= data@ + telnet_shown_from(buf@, i as int));
    assert(replies@ =~= replies@ + telnet_replies_from(buf@, i as int));
    (data, replies)
}

/// What a read from a session's stream gave.
pub enum ReadEvent {
    /// Some bytes.
    Data,
    /// No bytes at all.
    Nothing,
    /// Nothing yet; the read timed out.
    WouldBlock,
    /// Any other error.
    Failed,
}

/// What a session's reader does next.
pub enum ReaderAction {
    /// Hands the bytes read on and reads again.
    Emit,
    /// Waits a moment and reads again.
    Wait,
    /// Announces the end of the session and stops.
    Exit,
}

/// A telnet reader stops when the stream ends or fails.
pub fn telnet_reader_action(ev: ReadEvent) -> (r: ReaderAction)
    ensures
        r == (match ev {
            ReadEvent::Data => ReaderAction::Emit,
            ReadEvent::WouldBlock => ReaderAction::Wait,
            ReadEvent::Nothing => ReaderAction::Exit,
            ReadEvent::Failed => ReaderAction::Exit,
        }),
{
    match ev {
        ReadEvent::Data => ReaderAction::Emit,
        ReadEvent::WouldBlock => ReaderAction::Wait,
        ReadEvent::Nothing => ReaderAction::Exit,
        ReadEvent::Failed => ReaderAction::Exit,
    }
}

/// An SSH terminal reader stops when the channel fails or has reached its
/// end; an empty read before the end only makes it wait.
pub fn terminal_reader_action(ev: ReadEvent, eof: bool) -> (r: ReaderAction)
    ensures
        r == (match ev {
            ReadEvent::Data => ReaderAction::Emit,
            ReadEvent::WouldBlock => ReaderAction::Wait,
            ReadEvent::Nothing => if eof {
                ReaderAction::Exit
            } else {
                ReaderAction::Wait
            },
            ReadEvent::Failed => ReaderAction::Exit,
        }),
{
    match ev {
        ReadEvent::Data => ReaderAction::Emit,
        ReadEvent::WouldBlock => ReaderAction::Wait,
        ReadEvent::Nothing => if eof {
            ReaderAction::Exit
        } else {
            ReaderAction::Wait
        },
        ReadEvent::Failed => ReaderAction::Exit,
    }
}

} // verus!
