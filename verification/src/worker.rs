//! The pull worker: folds one image's reply stream into status events and a
//! sticky download flag, closing with exactly one terminal event.

use vstd::prelude::*;

use crate::status::PullChunk;
use crate::status::PullError;
use crate::status::Status;
use crate::status::StatusModel;
use crate::status::chunk_event;
use crate::status::clone_chunk;
use crate::status::did_download;
use crate::status::finished_event;
use crate::status::is_pull_status;
use crate::status::status_marks_download;

verus! {

/// One attempt to read the next reply of a pull stream: either an engine
/// chunk, or a transport failure whose text is kept for diagnostics.
#[derive(Debug, Clone)]
pub enum PullReply {
    Chunk(PullChunk),
    Transport { message: String },
}

/// A reply that ends the worker's stream: an engine chunk of a kind that a
/// pull stream cannot contain. A transport failure is not fatal; the worker
/// skips that reply.
pub open spec fn reply_fatal(reply: PullReply) -> bool {
    match reply {
        PullReply::Chunk(chunk) => !is_pull_status(chunk),
        PullReply::Transport { .. } => false,
    }
}

/// The event forwarded for one reply: a progress chunk yields its event, a
/// transport failure yields none.
pub open spec fn reply_event(image: Seq<char>, reply: PullReply) -> Option<StatusModel>
    recommends
        !reply_fatal(reply),
{
    match reply {
        PullReply::Chunk(chunk) => if is_pull_status(chunk) {
            Some(chunk_event(image, chunk))
        } else {
            None
        },
        PullReply::Transport { .. } => None,
    }
}

/// Whether this reply's status line carries the newer-image marker.
pub open spec fn reply_marks_download(reply: PullReply) -> bool {
    match reply {
        PullReply::Chunk(chunk) => match chunk {
            PullChunk::PullStatus { status, .. } => status_marks_download(status@),
            _ => false,
        },
        PullReply::Transport { .. } => false,
    }
}

/// A stream a worker survives: no reply is fatal.
pub open spec fn stream_ok(replies: Seq<PullReply>) -> bool {
    forall|i: int| 0 <= i < replies.len() ==> !reply_fatal(#[trigger] replies[i])
}

/// The intermediate events a worker forwards for `replies`, in stream order.
pub open spec fn intermediate_events(image: Seq<char>, replies: Seq<PullReply>) -> Seq<StatusModel>
    decreases replies.len(),
{
    if replies.len() == 0 {
        Seq::empty()
    } else {
        (match reply_event(image, replies[0]) {
            Some(e) => seq![e],
            None => Seq::empty(),
        }) + intermediate_events(image, replies.drop_first())
    }
}

/// The sticky download flag: true once any reply carries the marker, and
/// never reset afterwards.
pub open spec fn sticky_flag(replies: Seq<PullReply>) -> bool
    decreases replies.len(),
{
    if replies.len() == 0 {
        false
    } else {
        reply_marks_download(replies[0]) || sticky_flag(replies.drop_first())
    }
}

/// Everything a surviving worker emits for `image`: the intermediate events
/// followed by the single terminal event.
pub open spec fn worker_events(image: Seq<char>, replies: Seq<PullReply>) -> Seq<StatusModel> {
    intermediate_events(image, replies).push(finished_event(image, sticky_flag(replies)))
}

/// Adding one reply at the end of a stream appends that reply's event, if
/// any, to the intermediate events.
proof fn lemma_intermediate_events_snoc(image: Seq<char>, replies: Seq<PullReply>, i: int)
    requires
        0 <= i < replies.len(),
    ensures
        intermediate_events(image, replies.take(i + 1)) == intermediate_events(
            image,
            replies.take(i),
        ) + (match reply_event(image, replies[i]) {
            Some(e) => seq![e],
            None => Seq::<StatusModel>::empty(),
        }),
    decreases i,
{
    let pre = replies.take(i + 1);
    if i == 0 {
        assert(pre.drop_first() =~= Seq::<PullReply>::empty());
        assert(replies.take(0) =~= Seq::<PullReply>::empty());
        assert(intermediate_events(image, pre) =~= intermediate_events(image, replies.take(0))
            + (match reply_event(image, replies[0]) {
            Some(e) => seq![e],
            None => Seq::<StatusModel>::empty(),
        }));
    } else {
        lemma_intermediate_events_snoc(image, replies.drop_first(), i - 1);
        assert(pre.drop_first() =~= replies.drop_first().take(i));
        assert(replies.take(i).drop_first() =~= replies.drop_first().take(i - 1));
        assert(replies.drop_first()[i - 1] == replies[i]);
        assert(intermediate_events(image, replies.take(i + 1)) =~= intermediate_events(
            image,
            replies.take(i),
        ) + (match reply_event(image, replies[i]) {
            Some(e) => seq![e],
            None => Seq::<StatusModel>::empty(),
        }));
    }
}

/// Adding one reply at the end of a stream ORs its marker into the sticky
/// flag.
proof fn lemma_sticky_flag_snoc(replies: Seq<PullReply>, i: int)
    requires
        0 <= i < replies.len(),
    ensures
        sticky_flag(replies.take(i + 1)) == (sticky_flag(replies.take(i)) || reply_marks_download(
            replies[i],
        )),
    decreases i,
{
    let pre = replies.take(i + 1);
    if i == 0 {
        assert(pre.drop_first() =~= Seq::<PullReply>::empty());
        assert(replies.take(0) =~= Seq::<PullReply>::empty());
    } else {
        lemma_sticky_flag_snoc(replies.drop_first(), i - 1);
        assert(pre.drop_first() =~= replies.drop_first().take(i));
        assert(replies.take(i).drop_first() =~= replies.drop_first().take(i - 1));
        assert(replies.drop_first()[i - 1] == replies[i]);
    }
}

/// Folds one reply into the worker's state. A progress chunk yields the event
/// to forward and ORs its marker into the sticky flag; a transport failure
/// yields nothing and leaves the flag; any other chunk kind is fatal.
pub fn worker_step(image: &String, has_downloaded: bool, reply: PullReply) -> (r: Result<
    (Option<Status>, bool),
    PullError,
>)
    ensures
        reply_fatal(reply) ==> r == Err::<(Option<Status>, bool), PullError>(
            PullError::UnexpectedChunk,
        ),
        !reply_fatal(reply) ==> (r matches Ok((ev, flag)) && flag == (has_downloaded
            || reply_marks_download(reply)) && (match reply_event(image@, reply) {
            Some(m) => ev matches Some(s) && s@ == m,
            None => ev is None,
        })),
{
    match reply {
        PullReply::Chunk(chunk) => {
            let status = Status::from_chunk(image.clone(), chunk)?;
            let flag = has_downloaded || did_download(status.status.as_str());
            Ok((Some(status), flag))
        },
        PullReply::Transport { .. } => Ok((None, has_downloaded)),
    }
}

/// Drives one worker over a whole reply stream: forwards each progress event,
/// accumulates the sticky flag, and closes with the terminal event. Succeeds
/// exactly on streams without a fatal reply; the first fatal reply aborts the
/// run.
pub fn run_worker(image: &String, replies: &Vec<PullReply>) -> (r: Result<Vec<Status>, PullError>)
    ensures
        r is Ok <==> stream_ok(replies@),
        stream_ok(replies@) ==> (r matches Ok(events) && events.deep_view() == worker_events(
            image@,
            replies@,
        )),
        !stream_ok(replies@) ==> r == Err::<Vec<Status>, PullError>(PullError::UnexpectedChunk),
{
    let mut events: Vec<Status> = Vec::new();
    let mut has_downloaded = false;
    let mut i: usize = 0;
    proof {
        assert(events.deep_view() =~= intermediate_events(image@, replies@.take(0)));
        assert(replies@.take(0) =~= Seq::<PullReply>::empty());
    }
    while i < replies.len()
        invariant
            i <= replies@.len(),
            forall|k: int| 0 <= k < i ==> !reply_fatal(#[trigger] replies@[k]),
            events.deep_view() == intermediate_events(image@, replies@.take(i as int)),
            has_downloaded == sticky_flag(replies@.take(i as int)),
        decreases replies@.len() - i,
    {
        let reply = clone_reply(&replies[i]);
        match worker_step(image, has_downloaded, reply) {
            Ok((ev, flag)) => {
                proof {
                    lemma_intermediate_events_snoc(image@, replies@, i as int);
                    lemma_sticky_flag_snoc(replies@, i as int);
                }
                match ev {
                    Some(s) => {
                        events.push(s);
                        proof {
                            assert(events.deep_view() =~= intermediate_events(
                                image@,
                                replies@.take(i + 1),
                            ));
                        }
                    },
                    None => {
                        proof {
                            assert(events.deep_view() =~= intermediate_events(
                                image@,
                                replies@.take(i + 1),
                            ));
                        }
                    },
                }
                has_downloaded = flag;
            },
            Err(e) => {
                assert(reply_fatal(replies@[i as int]));
                assert(!stream_ok(replies@));
                return Err(e);
            },
        }
        i += 1;
    }
    proof {
        assert(replies@.take(replies@.len() as int) =~= replies@);
    }
    let terminal = Status::finished(image.clone(), has_downloaded);
    events.push(terminal);
    proof {
        assert(events.deep_view() =~= worker_events(image@, replies@));
    }
    Ok(events)
}

/// A copy of a reply, equal to the original.
fn clone_reply(r: &PullReply) -> (c: PullReply)
    ensures
        c == *r,
{
    match r {
        PullReply::Chunk(chunk) => PullReply::Chunk(clone_chunk(chunk)),
        PullReply::Transport { message } => PullReply::Transport { message: message.clone() },
    }
}

/// Every successful worker run ends in exactly one terminal event: the last
/// event reads `Finished` and carries the sticky flag, and every earlier
/// event is an intermediate one with the download flag clear.
pub proof fn lemma_worker_terminal(image: Seq<char>, replies: Seq<PullReply>)
    ensures
        worker_events(image, replies).len() >= 1,
        worker_events(image, replies).last() == finished_event(image, sticky_flag(replies)),
        worker_events(image, replies).last().status == "Finished"@,
        forall|k: int|
            0 <= k < worker_events(image, replies).len() - 1 ==> !worker_events(
                image,
                replies,
            )[k].did_download,
{
    lemma_intermediate_no_download(image, replies);
}

/// No intermediate event carries the download flag.
proof fn lemma_intermediate_no_download(image: Seq<char>, replies: Seq<PullReply>)
    ensures
        forall|k: int|
            0 <= k < intermediate_events(image, replies).len() ==> !intermediate_events(
                image,
                replies,
            )[k].did_download,
    decreases replies.len(),
{
    if replies.len() > 0 {
        lemma_intermediate_no_download(image, replies.drop_first());
    }
}

/// The terminal event's download flag is true exactly when some intermediate
/// event's status line carried the newer-image marker; one marked event makes
/// it true however many unmarked events follow.
pub proof fn lemma_terminal_download_iff_marker(image: Seq<char>, replies: Seq<PullReply>)
    ensures
        worker_events(image, replies).last().did_download <==> exists|k: int|
            0 <= k < intermediate_events(image, replies).len() && status_marks_download(
                #[trigger] intermediate_events(image, replies)[k].status,
            ),
{
    lemma_sticky_iff_marked_event(image, replies);
}

/// The sticky flag holds exactly when some forwarded event's status carries
/// the marker.
proof fn lemma_sticky_iff_marked_event(image: Seq<char>, replies: Seq<PullReply>)
    ensures
        sticky_flag(replies) <==> exists|k: int|
            0 <= k < intermediate_events(image, replies).len() && status_marks_download(
                #[trigger] intermediate_events(image, replies)[k].status,
            ),
    decreases replies.len(),
{
    let evs = intermediate_events(image, replies);
    if replies.len() == 0 {
    } else {
        let rest = intermediate_events(image, replies.drop_first());
        let head = (match reply_event(image, replies[0]) {
            Some(e) => seq![e],
            None => Seq::<StatusModel>::empty(),
        });
        lemma_sticky_iff_marked_event(image, replies.drop_first());
        assert(evs == head + rest);
        if reply_marks_download(replies[0]) {
            assert(status_marks_download(evs[0].status));
        } else {
            if sticky_flag(replies) {
                let k = choose|k: int|
                    0 <= k < rest.len() && status_marks_download(#[trigger] rest[k].status);
                assert(evs[head.len() + k] == rest[k]);
                assert(status_marks_download(evs[head.len() + k].status));
            }
            if exists|k: int|
                0 <= k < evs.len() && status_marks_download(#[trigger] evs[k].status) {
                let k = choose|k: int|
                    0 <= k < evs.len() && status_marks_download(#[trigger] evs[k].status);
                if k < head.len() {
                    assert(head.len() == 1 && evs[0] == head[0]);
                    assert(!status_marks_download(evs[0].status));
                } else {
                    assert(rest[k - head.len()] == evs[k]);
                }
            }
        }
    }
}

} // verus!
