//! The orchestrator model: one worker run per image, all events merged into
//! one stream, reduced to the sorted report, with per-image failures kept
//! apart so one image's failure never hides the others' results.

use vstd::multiset::Multiset;
use vstd::prelude::*;

use crate::aggregate::downloaded_of;
use crate::aggregate::is_aggregate;
use crate::aggregate::lemma_downloaded_concat;
use crate::aggregate::lemma_downloaded_none;
use crate::aggregate::lemma_downloaded_singleton;
use crate::aggregate::reduce_events;
use crate::status::Status;
use crate::text::sorted_strings;
use crate::worker::PullReply;
use crate::worker::lemma_worker_terminal;
use crate::worker::run_worker;
use crate::worker::sticky_flag;
use crate::worker::stream_ok;
use crate::worker::worker_events;

verus! {

/// One image to pull, together with its reply stream.
pub struct PullJob {
    pub image: String,
    pub replies: Vec<PullReply>,
}

/// What a batch returns: the sorted report of freshly downloaded images, and
/// the images whose workers ended on a protocol error.
pub struct BatchOutcome {
    pub downloaded: Vec<String>,
    pub failures: Vec<String>,
}

/// A job whose worker survives its whole stream.
pub open spec fn job_ok(job: PullJob) -> bool {
    stream_ok(job.replies@)
}

/// A job whose worker reports a fresh download.
pub open spec fn job_downloads(job: PullJob) -> bool {
    job_ok(job) && sticky_flag(job.replies@)
}

/// The images the batch reports as freshly downloaded, in job order.
pub open spec fn batch_downloaded(jobs: Seq<PullJob>) -> Seq<Seq<char>>
    decreases jobs.len(),
{
    if jobs.len() == 0 {
        Seq::empty()
    } else {
        (if job_downloads(jobs[0]) {
            seq![jobs[0].image@]
        } else {
            Seq::empty()
        }) + batch_downloaded(jobs.drop_first())
    }
}

/// The images whose workers fail, in job order.
pub open spec fn batch_failures(jobs: Seq<PullJob>) -> Seq<Seq<char>>
    decreases jobs.len(),
{
    if jobs.len() == 0 {
        Seq::empty()
    } else {
        (if !job_ok(jobs[0]) {
            seq![jobs[0].image@]
        } else {
            Seq::empty()
        }) + batch_failures(jobs.drop_first())
    }
}

/// Adding one job at the end of a batch appends its image to the report when
/// it downloads, and to the failures when its worker fails.
proof fn lemma_batch_snoc(jobs: Seq<PullJob>, i: int)
    requires
        0 <= i < jobs.len(),
    ensures
        batch_downloaded(jobs.take(i + 1)) == batch_downloaded(jobs.take(i)) + (if job_downloads(
            jobs[i],
        ) {
            seq![jobs[i].image@]
        } else {
            Seq::<Seq<char>>::empty()
        }),
        batch_failures(jobs.take(i + 1)) == batch_failures(jobs.take(i)) + (if !job_ok(jobs[i]) {
            seq![jobs[i].image@]
        } else {
            Seq::<Seq<char>>::empty()
        }),
    decreases i,
{
    let pre = jobs.take(i + 1);
    if i == 0 {
        assert(pre.drop_first() =~= Seq::<PullJob>::empty());
        assert(jobs.take(0) =~= Seq::<PullJob>::empty());
        assert(batch_downloaded(pre) =~= batch_downloaded(jobs.take(0)) + (if job_downloads(
            jobs[0],
        ) {
            seq![jobs[0].image@]
        } else {
            Seq::<Seq<char>>::empty()
        }));
        assert(batch_failures(pre) =~= batch_failures(jobs.take(0)) + (if !job_ok(jobs[0]) {
            seq![jobs[0].image@]
        } else {
            Seq::<Seq<char>>::empty()
        }));
    } else {
        lemma_batch_snoc(jobs.drop_first(), i - 1);
        assert(pre.drop_first() =~= jobs.drop_first().take(i));
        assert(jobs.take(i).drop_first() =~= jobs.drop_first().take(i - 1));
        assert(jobs.drop_first()[i - 1] == jobs[i]);
        assert(batch_downloaded(jobs.take(i + 1)) =~= batch_downloaded(jobs.take(i)) + (
        if job_downloads(jobs[i]) {
            seq![jobs[i].image@]
        } else {
            Seq::<Seq<char>>::empty()
        }));
        assert(batch_failures(jobs.take(i + 1)) =~= batch_failures(jobs.take(i)) + (if !job_ok(
            jobs[i],
        ) {
            seq![jobs[i].image@]
        } else {
            Seq::<Seq<char>>::empty()
        }));
    }
}

/// A surviving worker's whole output contributes exactly its image when its
/// stream carried the marker, and nothing otherwise.
proof fn lemma_worker_downloaded(image: Seq<char>, replies: Seq<PullReply>)
    ensures
        downloaded_of(worker_events(image, replies)) == (if sticky_flag(replies) {
            seq![image]
        } else {
            Seq::<Seq<char>>::empty()
        }),
{
    let evs = worker_events(image, replies);
    let inter = crate::worker::intermediate_events(image, replies);
    let terminal = crate::status::finished_event(image, sticky_flag(replies));
    lemma_worker_terminal(image, replies);
    assert(forall|k: int| 0 <= k < inter.len() ==> !(#[trigger] inter[k].did_download)) by {
        assert(forall|k: int| 0 <= k < inter.len() ==> inter[k] == evs[k] && !evs[k].did_download);
    }
    lemma_downloaded_none(inter);
    assert(evs =~= inter + seq![terminal]);
    lemma_downloaded_concat(inter, seq![terminal]);
    lemma_downloaded_singleton(terminal);
    assert(downloaded_of(evs) =~= (if sticky_flag(replies) {
        seq![image]
    } else {
        Seq::<Seq<char>>::empty()
    }));
}

/// The images of a batch, in job order.
pub open spec fn batch_images(jobs: Seq<PullJob>) -> Seq<Seq<char>> {
    Seq::new(jobs.len(), |i: int| jobs[i].image@)
}

/// Every image the batch reports was one of its jobs' images.
proof fn lemma_batch_downloaded_subset(jobs: Seq<PullJob>, x: Seq<char>)
    requires
        batch_downloaded(jobs).contains(x),
    ensures
        batch_images(jobs).contains(x),
    decreases jobs.len(),
{
    if jobs.len() > 0 {
        let head = (if job_downloads(jobs[0]) {
            seq![jobs[0].image@]
        } else {
            Seq::<Seq<char>>::empty()
        });
        let rest = batch_downloaded(jobs.drop_first());
        let k = choose|k: int| 0 <= k < batch_downloaded(jobs).len() && batch_downloaded(jobs)[k] == x;
        if k < head.len() {
            assert(x == jobs[0].image@);
            assert(batch_images(jobs)[0] == x);
        } else {
            assert(rest[k - head.len()] == x);
            lemma_batch_downloaded_subset(jobs.drop_first(), x);
            let j = choose|j: int|
                0 <= j < batch_images(jobs.drop_first()).len() && batch_images(
                    jobs.drop_first(),
                )[j] == x;
            assert(batch_images(jobs)[j + 1] == x);
        }
    }
}

/// A batch of distinct images reports each image at most once.
pub proof fn lemma_batch_downloaded_distinct(jobs: Seq<PullJob>)
    requires
        batch_images(jobs).no_duplicates(),
    ensures
        batch_downloaded(jobs).no_duplicates(),
    decreases jobs.len(),
{
    if jobs.len() > 0 {
        let head = (if job_downloads(jobs[0]) {
            seq![jobs[0].image@]
        } else {
            Seq::<Seq<char>>::empty()
        });
        let rest = batch_downloaded(jobs.drop_first());
        assert(batch_images(jobs.drop_first()).no_duplicates()) by {
            assert(forall|j: int|
                0 <= j < batch_images(jobs.drop_first()).len() ==> batch_images(
                    jobs.drop_first(),
                )[j] == batch_images(jobs)[j + 1]);
        }
        lemma_batch_downloaded_distinct(jobs.drop_first());
        if head.len() > 0 && rest.contains(jobs[0].image@) {
            lemma_batch_downloaded_subset(jobs.drop_first(), jobs[0].image@);
            let j = choose|j: int|
                0 <= j < batch_images(jobs.drop_first()).len() && batch_images(
                    jobs.drop_first(),
                )[j] == jobs[0].image@;
            assert(batch_images(jobs)[j + 1] == batch_images(jobs)[0]);
            assert(false);
        }
        assert forall|k1: int, k2: int|
            0 <= k1 < k2 < batch_downloaded(jobs).len() implies batch_downloaded(jobs)[k1]
            != batch_downloaded(jobs)[k2] by {
            if k1 >= head.len() {
                assert(batch_downloaded(jobs)[k1] == rest[k1 - head.len()]);
                assert(batch_downloaded(jobs)[k2] == rest[k2 - head.len()]);
            } else {
                assert(batch_downloaded(jobs)[k2] == rest[k2 - head.len()]);
                assert(rest.contains(rest[k2 - head.len()]));
            }
        }
    }
}

/// A batch over distinct images yields a report without duplicates: what
/// `run_batch` returns for it is sorted and repeats no image.
pub proof fn lemma_batch_report_distinct(jobs: Seq<PullJob>, report: Seq<Seq<char>>)
    requires
        batch_images(jobs).no_duplicates(),
        report.to_multiset() == batch_downloaded(jobs).to_multiset(),
    ensures
        report.no_duplicates(),
{
    broadcast use vstd::seq_lib::group_to_multiset_ensures;

    lemma_batch_downloaded_distinct(jobs);
    batch_downloaded(jobs).lemma_multiset_has_no_duplicates();
    assert(forall|x: Seq<char>|
        report.to_multiset().contains(x) ==> report.to_multiset().count(x) == 1);
    report.lemma_multiset_has_no_duplicates_conv();
}

/// Runs the whole batch: one worker per job over its reply stream, all events
/// merged, the merged stream reduced. The report holds exactly the images of
/// the jobs that downloaded, sorted ascending lexicographically; the failures
/// hold exactly the images of the jobs whose workers hit a protocol error, in
/// job order. An empty batch returns an empty report.
pub fn run_batch(jobs: &Vec<PullJob>) -> (r: BatchOutcome)
    ensures
        sorted_strings(r.downloaded.deep_view()),
        r.downloaded.deep_view().to_multiset() == batch_downloaded(jobs@).to_multiset(),
        r.failures.deep_view() == batch_failures(jobs@),
        jobs@.len() == 0 ==> r.downloaded@.len() == 0 && r.failures@.len() == 0,
{
    broadcast use vstd::seq_lib::group_to_multiset_ensures;

    let mut all_events: Vec<Status> = Vec::new();
    let mut failures: Vec<String> = Vec::new();
    proof {
        assert(jobs@.take(0) =~= Seq::<PullJob>::empty());
        assert(all_events.deep_view() =~= Seq::<crate::status::StatusModel>::empty());
        assert(downloaded_of(all_events.deep_view()) == batch_downloaded(jobs@.take(0)));
        assert(failures.deep_view() =~= batch_failures(jobs@.take(0)));
    }
    let mut i: usize = 0;
    while i < jobs.len()
        invariant
            i <= jobs@.len(),
            downloaded_of(all_events.deep_view()) == batch_downloaded(jobs@.take(i as int)),
            failures.deep_view() == batch_failures(jobs@.take(i as int)),
        decreases jobs@.len() - i,
    {
        let job = &jobs[i];
        proof {
            lemma_batch_snoc(jobs@, i as int);
        }
        match run_worker(&job.image, &job.replies) {
            Ok(mut events) => {
                let ghost prev = all_events.deep_view();
                all_events.append(&mut events);
                proof {
                    assert(all_events.deep_view() =~= prev + worker_events(
                        job.image@,
                        job.replies@,
                    ));
                    lemma_downloaded_concat(prev, worker_events(job.image@, job.replies@));
                    lemma_worker_downloaded(job.image@, job.replies@);
                    assert(failures.deep_view() =~= batch_failures(jobs@.take(i + 1)));
                }
            },
            Err(_) => {
                failures.push(job.image.clone());
                proof {
                    assert(failures.deep_view() =~= batch_failures(jobs@.take(i + 1)));
                    assert(batch_downloaded(jobs@.take(i + 1)) =~= batch_downloaded(
                        jobs@.take(i as int),
                    ));
                }
            },
        }
        i += 1;
    }
    proof {
        assert(jobs@.take(jobs@.len() as int) =~= jobs@);
    }
    let downloaded = reduce_events(&all_events);
    proof {
        assert(is_aggregate(all_events.deep_view(), downloaded.deep_view()));
        if jobs@.len() == 0 {
            assert(batch_downloaded(jobs@).to_multiset() =~= Multiset::<Seq<char>>::empty());
            assert(downloaded.deep_view().to_multiset().len() == downloaded.deep_view().len());
            assert(downloaded@.len() == downloaded.deep_view().len());
        }
    }
    BatchOutcome { downloaded, failures }
}

} // verus!
