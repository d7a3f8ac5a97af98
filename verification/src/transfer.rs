//! Copying a byte stream in chunks, with progress reports and cancellation.
use std::sync::atomic::AtomicBool;
use std::sync::Arc;
use vstd::prelude::*;

use crate::registry::Registry;
use crate::text::{concat, owned};

verus! {

/// How many bytes a copy reads at a time.
pub const TRANSFER_BUFFER_SIZE: usize = 65536;

/// How far the copy of one file has come.
pub struct TransferProgress {
    pub path: String,
    pub file_name: String,
    pub bytes_transferred: u64,
    pub total_bytes: u64,
}

/// What a copy of one file reports after each chunk.
pub fn transfer_progress(path: &str, file_name: &str, bytes_transferred: u64, total_bytes: u64) -> (r: TransferProgress)
    ensures
        r.path@ == path@,
        r.file_name@ == file_name@,
        r.bytes_transferred == bytes_transferred,
        r.total_bytes == total_bytes,
{
    TransferProgress {
        path: owned(path),
        file_name: owned(file_name),
        bytes_transferred,
        total_bytes,
    }
}

/// The outcome of a cancellation check on the flag's value.
pub fn transfer_cancelled_result(cancelled: bool) -> (r: Result<(), String>)
    ensures
        cancelled ==> r is Err && r->Err_0@ == "Transfer cancelled"@,
        !cancelled ==> r is Ok,
{
    if cancelled {
        Err(owned("Transfer cancelled"))
    } else {
        Ok(())
    }
}

/// Fails once the transfer's flag has been raised. The flag is shared with
/// the thread that cancels, so what it reads is whatever was stored last.
pub fn check_transfer_cancelled(cancel: &AtomicBool) -> (r: Result<(), String>)
    ensures
        r is Ok || r->Err_0@ == "Transfer cancelled"@,
{
    let flag = cancel.load(core::sync::atomic::Ordering::SeqCst);
    transfer_cancelled_result(flag)
}

/// The source, the destination and the listener of a copy, which the user
/// of the copy supplies.
pub trait CopyEnds {
    /// The next bytes of the source, at most `max` of them; none at its end.
    fn read_chunk(&mut self, max: usize) -> Result<Vec<u8>, String>;

    /// Writes all of `data` to the destination.
    fn write_chunk(&mut self, data: &[u8]) -> Result<(), String>;

    /// Hears that `transferred` of `total` bytes have been copied.
    fn progress(&mut self, transferred: u64, total: u64) -> Result<(), String>;
}

/// One call made during a copy, with what it was given and what came back.
pub enum CopyEvent {
    /// A look at the cancellation flag, and whether it was raised.
    Check(bool),
    /// A read asked for at most so many bytes: the bytes, or the error.
    Read(usize, Result<Seq<u8>, Seq<char>>),
    /// A write of these bytes, and its error if it failed.
    Write(Seq<u8>, Option<Seq<char>>),
    /// A report of (transferred, total) to the listener, and its error if it
    /// failed.
    Report(u64, u64, Option<Seq<char>>),
}

/// What a copy that has moved `count` bytes so far returns after the events
/// `ev`, or `None` when the events are not those of a copy. Each round looks
/// at the flag, reads at most one buffer, writes what it read and reports the
/// new count with the total; a raised flag, an empty read or an error ends
/// the copy, as does a count that would pass `u64::MAX`.
pub open spec fn copy_run(ev: Seq<CopyEvent>, count: nat, total: u64) -> Option<Result<nat, Seq<char>>>
    decreases ev.len(),
{
    if ev.len() == 0 {
        None
    } else {
        match ev[0] {
            CopyEvent::Check(true) => if ev.len() == 1 {
                Some(Err("Transfer cancelled"@))
            } else {
                None
            },
            CopyEvent::Check(false) => if ev.len() < 2 {
                None
            } else {
                match ev[1] {
                    CopyEvent::Read(max, got) => if max != TRANSFER_BUFFER_SIZE {
                        None
                    } else {
                        match got {
                            Err(e) => if ev.len() == 2 {
                                Some(Err(read_failure(e)))
                            } else {
                                None
                            },
                            Ok(c) => if c.len() == 0 {
                                if ev.len() == 2 {
                                    Some(Ok(count))
                                } else {
                                    None
                                }
                            } else if ev.len() < 3 {
                                None
                            } else {
                                match ev[2] {
                                    CopyEvent::Write(d, failed) => if d != c {
                                        None
                                    } else {
                                        match failed {
                                            Some(e) => if ev.len() == 3 {
                                                Some(Err(write_failure(e)))
                                            } else {
                                                None
                                            },
                                            None => if count + c.len() > u64::MAX {
                                                if ev.len() == 3 {
                                                    Some(Err("Transfer size overflow"@))
                                                } else {
                                                    None
                                                }
                                            } else if ev.len() < 4 {
                                                None
                                            } else {
                                                match ev[3] {
                                                    CopyEvent::Report(t, tot, refused) => if t
                                                        != count + c.len() || tot != total {
                                                        None
                                                    } else {
                                                        match refused {
                                                            Some(e) => if ev.len() == 4 {
                                                                Some(Err(e))
                                                            } else {
                                                                None
                                                            },
                                                            None => copy_run(
                                                                ev.skip(4),
                                                                count + c.len(),
                                                                total,
                                                            ),
                                                        }
                                                    },
                                                    _ => None,
                                                }
                                            },
                                        }
                                    },
                                    _ => None,
                                }
                            },
                        }
                    },
                    _ => None,
                }
            },
            _ => None,
        }
    }
}

/// The event of an outcome: the bytes or the error, as text.
pub open spec fn read_event(max: usize, r: Result<Vec<u8>, String>) -> CopyEvent {
    CopyEvent::Read(
        max,
        match r {
            Ok(c) => Ok(c@),
            Err(e) => Err(e@),
        },
    )
}

/// The error of a call, if it failed.
pub open spec fn failure_of(r: Result<(), String>) -> Option<Seq<char>> {
    match r {
        Ok(()) => None,
        Err(e) => Some(e@),
    }
}

/// The ends of a copy with a log of every call made through it, the looks
/// at the cancellation flag among them.
pub struct CopyRecord<E: CopyEnds> {
    pub ends: E,
    log: Ghost<Seq<CopyEvent>>,
}

impl<E: CopyEnds> CopyRecord<E> {
    /// The calls made so far, in order.
    pub closed spec fn log(&self) -> Seq<CopyEvent> {
        self.log@
    }

    /// The ends, with nothing logged yet.
    pub fn new(ends: E) -> (r: Self)
        ensures
            r.log() == Seq::<CopyEvent>::empty(),
    {
        CopyRecord { ends, log: Ghost(Seq::empty()) }
    }

    /// Looks at the flag: an error once it has been raised. Logged.
    pub fn check_cancelled(&mut self, cancel: &AtomicBool) -> (r: Result<(), String>)
        ensures
            final(self).log() == old(self).log().push(CopyEvent::Check(r is Err)),
            r is Err ==> r->Err_0@ == "Transfer cancelled"@,
    {
        let r = check_transfer_cancelled(cancel);
        self.log = Ghost(self.log@.push(CopyEvent::Check(r is Err)));
        r
    }

    /// Reads from the source. Logged.
    pub fn read_chunk(&mut self, max: usize) -> (r: Result<Vec<u8>, String>)
        ensures
            final(self).log() == old(self).log().push(read_event(max, r)),
    {
        let r = self.ends.read_chunk(max);
        self.log = Ghost(self.log@.push(read_event(max, r)));
        r
    }

    /// Writes to the destination. Logged.
    pub fn write_chunk(&mut self, data: &[u8]) -> (r: Result<(), String>)
        ensures
            final(self).log() == old(self).log().push(CopyEvent::Write(data@, failure_of(r))),
    {
        let r = self.ends.write_chunk(data);
        self.log = Ghost(self.log@.push(CopyEvent::Write(data@, failure_of(r))));
        r
    }

    /// Reports to the listener. Logged.
    pub fn progress(&mut self, transferred: u64, total: u64) -> (r: Result<(), String>)
        ensures
            final(self).log() == old(self).log().push(
                CopyEvent::Report(transferred, total, failure_of(r)),
            ),
    {
        let r = self.ends.progress(transferred, total);
        self.log = Ghost(self.log@.push(CopyEvent::Report(transferred, total, failure_of(r))));
        r
    }
}

/// What a copy returned, as a count or an error text.
pub open spec fn copy_result(r: Result<u64, String>) -> Result<nat, Seq<char>> {
    match r {
        Ok(n) => Ok(n as nat),
        Err(e) => Err(e@),
    }
}

/// The error of a failed read.
pub open spec fn read_failure(e: Seq<char>) -> Seq<char> {
    "Read transfer stream failed: "@ + e
}

/// The error of a failed write.
pub open spec fn write_failure(e: Seq<char>) -> Seq<char> {
    "Write transfer stream failed: "@ + e
}

/// The error of a failed read, from the reader's own.
pub fn read_failed(e: String) -> (r: String)
    ensures
        r@ == read_failure(e@),
{
    concat("Read transfer stream failed: ", e.as_str())
}

/// The error of a failed write, from the writer's own.
pub fn write_failed(e: String) -> (r: String)
    ensures
        r@ == write_failure(e@),
{
    concat("Write transfer stream failed: ", e.as_str())
}

/// The count after a chunk of `n` bytes, unless it no longer fits.
pub fn count_chunk(transferred: u64, n: usize) -> (r: Result<u64, String>)
    ensures
        transferred + n <= u64::MAX ==> r == Ok::<u64, String>((transferred + n) as u64),
        transferred + n > u64::MAX ==> r is Err && r->Err_0@ == "Transfer size overflow"@,
{
    let m: u64 = n as u64;
    if transferred <= u64::MAX - m {
        Ok(transferred + m)
    } else {
        Err(owned("Transfer size overflow"))
    }
}

/// Copies the source to the destination chunk by chunk until the source
/// ends, checking the flag before each chunk and reporting the running count
/// and `total_bytes` after each. Returns the count; an error of either end, of
/// the listener or the raised flag stops the copy. The calls it makes, and
/// what it returns after them, are those of `copy_run`.
pub fn copy_stream_with_progress<E: CopyEnds>(ends: &mut CopyRecord<E>, total_bytes: u64, cancel: &AtomicBool) -> (r: Result<u64, String>)
    ensures
        final(ends).log().len() >= old(ends).log().len(),
        final(ends).log().take(old(ends).log().len() as int) == old(ends).log(),
        copy_run(final(ends).log().skip(old(ends).log().len() as int), 0, total_bytes) == Some(
            copy_result(r),
        ),
{
    let ghost l0 = ends.log();
    let mut transferred: u64 = 0;
    assert forall|tail: Seq<CopyEvent>|
        #[trigger] copy_run(ends.log().skip(l0.len() as int) + tail, 0, total_bytes) == copy_run(
            tail,
            0,
            total_bytes,
        ) by {
        assert(ends.log().skip(l0.len() as int) + tail =~= tail);
    }
    assert(ends.log().take(l0.len() as int) =~= l0);
    loop
        invariant
            l0 == old(ends).log(),
            ends.log().len() >= l0.len(),
            ends.log().take(l0.len() as int) == l0,
            forall|tail: Seq<CopyEvent>|
                #[trigger] copy_run(ends.log().skip(l0.len() as int) + tail, 0, total_bytes)
                    == copy_run(tail, transferred as nat, total_bytes),
        decreases u64::MAX - transferred,
    {
        let ghost p = ends.log().skip(l0.len() as int);
        let ghost lg = ends.log();
        match ends.check_cancelled(cancel) {
            Ok(()) => {},
            Err(e) => {
                proof {
                    let tail = seq![CopyEvent::Check(true)];
                    assert(ends.log().skip(l0.len() as int) =~= p + tail);
                    assert(copy_run(p + tail, 0, total_bytes) == copy_run(tail, transferred as nat, total_bytes));
                    assert(ends.log().take(l0.len() as int) =~= lg.take(l0.len() as int));
                }
                return Err(e);
            },
        }
        let chunk = match ends.read_chunk(TRANSFER_BUFFER_SIZE) {
            Ok(c) => c,
            Err(e) => {
                proof {
                    let tail = seq![CopyEvent::Check(false), CopyEvent::Read(TRANSFER_BUFFER_SIZE, Err(e@))];
                    assert(ends.log().skip(l0.len() as int) =~= p + tail);
                    assert(copy_run(p + tail, 0, total_bytes) == copy_run(tail, transferred as nat, total_bytes));
                    assert(ends.log().take(l0.len() as int) =~= lg.take(l0.len() as int));
                }
                return Err(read_failed(e));
            },
        };
        if chunk.len() == 0 {
            proof {
                let tail = seq![CopyEvent::Check(false), CopyEvent::Read(TRANSFER_BUFFER_SIZE, Ok(chunk@))];
                assert(ends.log().skip(l0.len() as int) =~= p + tail);
                assert(copy_run(p + tail, 0, total_bytes) == copy_run(tail, transferred as nat, total_bytes));
                assert(ends.log().take(l0.len() as int) =~= lg.take(l0.len() as int));
            }
            return Ok(transferred);
        }
        match ends.write_chunk(chunk.as_slice()) {
            Ok(()) => {},
            Err(e) => {
                proof {
                    let tail = seq![
                        CopyEvent::Check(false),
                        CopyEvent::Read(TRANSFER_BUFFER_SIZE, Ok(chunk@)),
                        CopyEvent::Write(chunk@, Some(e@)),
                    ];
                    assert(ends.log().skip(l0.len() as int) =~= p + tail);
                    assert(copy_run(p + tail, 0, total_bytes) == copy_run(tail, transferred as nat, total_bytes));
                    assert(ends.log().take(l0.len() as int) =~= lg.take(l0.len() as int));
                }
                return Err(write_failed(e));
            },
        }
        let next = match count_chunk(transferred, chunk.len()) {
            Ok(n) => n,
            Err(e) => {
                proof {
                    let tail = seq![
                        CopyEvent::Check(false),
                        CopyEvent::Read(TRANSFER_BUFFER_SIZE, Ok(chunk@)),
                        CopyEvent::Write(chunk@, None),
                    ];
                    assert(ends.log().skip(l0.len() as int) =~= p + tail);
                    assert(copy_run(p + tail, 0, total_bytes) == copy_run(tail, transferred as nat, total_bytes));
                    assert(ends.log().take(l0.len() as int) =~= lg.take(l0.len() as int));
                }
                return Err(e);
            },
        };
        let ghost before = transferred;
        transferred = next;
        let reply = ends.progress(transferred, total_bytes);
        let ghost round = seq![
            CopyEvent::Check(false),
            CopyEvent::Read(TRANSFER_BUFFER_SIZE, Ok(chunk@)),
            CopyEvent::Write(chunk@, None),
            CopyEvent::Report(transferred, total_bytes, failure_of(reply)),
        ];
        proof {
            assert(ends.log().skip(l0.len() as int) =~= p + round);
            assert(ends.log().take(l0.len() as int) =~= lg.take(l0.len() as int));
        }
        match reply {
            Ok(()) => {},
            Err(e) => {
                proof {
                    assert(copy_run(p + round, 0, total_bytes) == copy_run(round, before as nat, total_bytes));
                }
                return Err(e);
            },
        }
        proof {
            assert forall|tail: Seq<CopyEvent>|
                #[trigger] copy_run(ends.log().skip(l0.len() as int) + tail, 0, total_bytes)
                    == copy_run(tail, transferred as nat, total_bytes) by {
                assert(ends.log().skip(l0.len() as int) + tail =~= p + (round + tail));
                assert(copy_run(p + (round + tail), 0, total_bytes) == copy_run(
                    round + tail,
                    before as nat,
                    total_bytes,
                ));
                assert((round + tail).skip(4) =~= tail);
                assert((round + tail)[0] == CopyEvent::Check(false));
                assert((round + tail)[1] == CopyEvent::Read(TRANSFER_BUFFER_SIZE, Ok(chunk@)));
                assert((round + tail)[2] == CopyEvent::Write(chunk@, None));
                assert((round + tail)[3] == CopyEvent::Report(transferred, total_bytes, None));
            }
        }
    }
}

/// `Arc::clone`: another pointer to the same flag, which is the same value.
#[verifier::external_body]
fn share_flag(flag: &Arc<AtomicBool>) -> (r: Arc<AtomicBool>)
    ensures
        r == *flag,
{
    Arc::clone(flag)
}

/// The cancellation flags of the transfers under way, by transfer id, and
/// the ids whose flag this manager has raised since they were registered.
pub struct SftpTransferManager {
    cancellations: Registry<Arc<AtomicBool>>,
    raised: Ghost<Set<Seq<char>>>,
}

impl SftpTransferManager {
    /// The transfers under way, by id.
    pub closed spec fn view(&self) -> Set<Seq<char>> {
        self.cancellations.view().dom()
    }

    /// The flag kept for a transfer under way.
    pub closed spec fn flag_of(&self, id: Seq<char>) -> Arc<AtomicBool> {
        self.cancellations.view()[id]
    }

    /// The transfers whose flag `cancel` raised since they were registered.
    pub closed spec fn raised(&self) -> Set<Seq<char>> {
        self.raised@
    }

    pub closed spec fn wf(&self) -> bool {
        self.cancellations.wf()
    }

    /// No transfer under way.
    pub fn new() -> (r: Self)
        ensures
            r.wf(),
            r.view() == Set::<Seq<char>>::empty(),
            r.raised() == Set::<Seq<char>>::empty(),
    {
        SftpTransferManager { cancellations: Registry::new(), raised: Ghost(Set::empty()) }
    }

    /// Starts tracking `transfer_id` with a fresh, lowered flag, in place of
    /// any flag it had, and hands that same flag to the transfer.
    pub fn register(&mut self, transfer_id: &str) -> (r: Arc<AtomicBool>)
        requires
            old(self).wf(),
        ensures
            final(self).wf(),
            final(self).view() == old(self).view().insert(transfer_id@),
            final(self).flag_of(transfer_id@) == r,
            forall|other: Seq<char>|
                other != transfer_id@ && old(self).view().contains(other) ==> #[trigger] final(self).flag_of(other)
                    == old(self).flag_of(other),
            final(self).raised() == old(self).raised().remove(transfer_id@),
    {
        let cancel = Arc::new(AtomicBool::new(false));
        let kept = share_flag(&cancel);
        self.cancellations.insert(owned(transfer_id), kept);
        self.raised = Ghost(self.raised@.remove(transfer_id@));
        cancel
    }

    /// Stops tracking `transfer_id`.
    pub fn finish(&mut self, transfer_id: &str)
        requires
            old(self).wf(),
        ensures
            final(self).wf(),
            final(self).view() == old(self).view().remove(transfer_id@),
            forall|other: Seq<char>|
                other != transfer_id@ && old(self).view().contains(other) ==> #[trigger] final(self).flag_of(other)
                    == old(self).flag_of(other),
            final(self).raised() == old(self).raised().remove(transfer_id@),
    {
        let _ = self.cancellations.remove(transfer_id);
        self.raised = Ghost(self.raised@.remove(transfer_id@));
    }

    /// Raises the flag of `transfer_id`; whether it is tracked.
    pub fn cancel(&mut self, transfer_id: &str) -> (r: bool)
        requires
            old(self).wf(),
        ensures
            final(self).wf(),
            r == old(self).view().contains(transfer_id@),
            final(self).view() == old(self).view(),
            forall|id: Seq<char>| #[trigger] final(self).flag_of(id) == old(self).flag_of(id),
            r ==> final(self).raised() == old(self).raised().insert(transfer_id@),
            !r ==> final(self).raised() == old(self).raised(),
    {
        match self.cancellations.get(transfer_id) {
            Some(flag) => {
                flag.store(true, core::sync::atomic::Ordering::SeqCst);
                self.raised = Ghost(self.raised@.insert(transfer_id@));
                true
            },
            None => false,
        }
    }

    /// Cancels `transfer_id`: fine when it is under way (its flag is then
    /// raised), an error otherwise.
    pub fn cancel_transfer(&mut self, transfer_id: &str) -> (r: Result<(), String>)
        requires
            old(self).wf(),
        ensures
            final(self).wf(),
            r is Ok <==> old(self).view().contains(transfer_id@),
            r is Err ==> r->Err_0@ == "Transfer not found"@,
            final(self).view() == old(self).view(),
            forall|id: Seq<char>| #[trigger] final(self).flag_of(id) == old(self).flag_of(id),
            r is Ok ==> final(self).raised() == old(self).raised().insert(transfer_id@),
            r is Err ==> final(self).raised() == old(self).raised(),
    {
        if self.cancel(transfer_id) {
            Ok(())
        } else {
            Err(owned("Transfer not found"))
        }
    }
}

/// A transfer just registered can be cancelled; once finished it can no
/// longer be; finishing leaves the other transfers tracked.
pub proof fn transfer_tracking_law(ids: Set<Seq<char>>, id: Seq<char>, other: Seq<char>)
    requires
        other != id,
    ensures
        ids.insert(id).contains(id),
        !ids.remove(id).contains(id),
        ids.remove(id).contains(other) == ids.contains(other),
{
}

} // verus!
