use image_puller::batch::PullJob;
use image_puller::batch::run_batch;
use image_puller::status::PullChunk;
use image_puller::status::PullError;
use image_puller::status::Status;
use image_puller::text::sort_strings;
use image_puller::text::str_le;
use image_puller::worker::PullReply;
use image_puller::worker::run_worker;
use image_puller::worker::worker_step;

fn progress_reply(status: &str) -> PullReply {
    PullReply::Chunk(PullChunk::PullStatus {
        status: status.to_string(),
        id: None,
        progress: None,
        progress_detail: None,
    })
}

fn downloaded_reply() -> PullReply {
    progress_reply("Status: Downloaded newer image for x")
}

#[test]
fn str_le_orders_lexicographically() {
    assert!(str_le("a", "b"));
    assert!(!str_le("b", "a"));
    assert!(str_le("abc", "abd"));
    assert!(str_le("ab", "abc"));
    assert!(!str_le("abc", "ab"));
    assert!(str_le("", "a"));
    assert!(str_le("same", "same"));
}

#[test]
fn sort_strings_sorts_and_keeps_duplicates() {
    let mut v = vec![
        "pear".to_string(),
        "apple".to_string(),
        "pear".to_string(),
        "banana".to_string(),
    ];
    sort_strings(&mut v);
    assert_eq!(v, vec!["apple", "banana", "pear", "pear"]);
}

#[test]
fn worker_emits_terminal_after_intermediates() {
    let image = "alpine".to_string();
    let replies = vec![progress_reply("Pulling fs layer"), progress_reply("Pull complete")];
    let events = run_worker(&image, &replies).unwrap();
    assert_eq!(events.len(), 3);
    assert_eq!(events[0].status, "Pulling fs layer");
    assert_eq!(events[1].status, "Pull complete");
    assert_eq!(events[2].status, "Finished");
    assert_eq!(events[2].image, "alpine");
    assert!(!events[0].did_download);
    assert!(!events[1].did_download);
    assert!(!events[2].did_download);
}

#[test]
fn worker_terminal_flag_is_sticky() {
    let image = "alpine".to_string();
    let replies = vec![
        progress_reply("Pulling fs layer"),
        downloaded_reply(),
        progress_reply("Image is up to date"),
    ];
    let events = run_worker(&image, &replies).unwrap();
    let last = events.last().unwrap();
    assert_eq!(last.status, "Finished");
    assert!(last.did_download);
}

#[test]
fn worker_aborts_on_protocol_error() {
    let image = "alpine".to_string();
    let replies = vec![
        progress_reply("Pulling fs layer"),
        PullReply::Chunk(PullChunk::Error { message: "boom".to_string() }),
    ];
    assert_eq!(run_worker(&image, &replies).unwrap_err(), PullError::UnexpectedChunk);
}

#[test]
fn worker_step_skips_transport_error() {
    let image = "alpine".to_string();
    let (event, flag) = worker_step(
        &image,
        false,
        PullReply::Transport { message: "connection reset".to_string() },
    )
    .unwrap();
    assert!(event.is_none());
    assert!(!flag);
    let (event, flag) = worker_step(
        &image,
        true,
        PullReply::Transport { message: "connection reset".to_string() },
    )
    .unwrap();
    assert!(event.is_none());
    assert!(flag);
}

#[test]
fn worker_step_forwards_progress() {
    let image = "alpine".to_string();
    let (event, flag) = worker_step(&image, false, downloaded_reply()).unwrap();
    let event = event.unwrap();
    assert_eq!(event.image, "alpine");
    assert!(!event.did_download);
    assert!(flag);
}

#[test]
fn empty_batch_returns_empty_sorted_list() {
    let jobs: Vec<PullJob> = Vec::new();
    let outcome = run_batch(&jobs);
    assert!(outcome.downloaded.is_empty());
    assert!(outcome.failures.is_empty());
}

#[test]
fn only_downloading_image_is_reported() {
    let jobs = vec![
        PullJob {
            image: "a".to_string(),
            replies: vec![progress_reply("Pulling fs layer"), downloaded_reply()],
        },
        PullJob {
            image: "b".to_string(),
            replies: vec![progress_reply("Image is up to date for b")],
        },
    ];
    let outcome = run_batch(&jobs);
    assert_eq!(outcome.downloaded, vec!["a"]);
    assert!(outcome.failures.is_empty());
}

#[test]
fn all_downloads_reported_sorted_whatever_the_order() {
    for order in [["x", "y", "z"], ["z", "y", "x"], ["y", "z", "x"]] {
        let jobs: Vec<PullJob> = order
            .iter()
            .map(|image| PullJob { image: image.to_string(), replies: vec![downloaded_reply()] })
            .collect();
        let outcome = run_batch(&jobs);
        assert_eq!(outcome.downloaded, vec!["x", "y", "z"]);
        assert!(outcome.failures.is_empty());
    }
}

#[test]
fn transport_error_skipped_and_image_absent() {
    let jobs = vec![PullJob {
        image: "w".to_string(),
        replies: vec![
            PullReply::Transport { message: "read timed out".to_string() },
            progress_reply("Pulling fs layer"),
            progress_reply("Pull complete"),
        ],
    }];
    let outcome = run_batch(&jobs);
    assert!(outcome.downloaded.is_empty());
    assert!(outcome.failures.is_empty());
}

#[test]
fn protocol_error_fails_one_image_and_spares_the_rest() {
    let jobs = vec![
        PullJob {
            image: "ok-image".to_string(),
            replies: vec![downloaded_reply()],
        },
        PullJob {
            image: "v".to_string(),
            replies: vec![PullReply::Chunk(PullChunk::Digest { digest: "sha256:00".to_string() })],
        },
    ];
    let outcome = run_batch(&jobs);
    assert_eq!(outcome.downloaded, vec!["ok-image"]);
    assert_eq!(outcome.failures, vec!["v"]);
}

#[test]
fn duplicate_submissions_are_not_deduplicated() {
    let jobs = vec![
        PullJob { image: "a".to_string(), replies: vec![downloaded_reply()] },
        PullJob { image: "a".to_string(), replies: vec![downloaded_reply()] },
    ];
    let outcome = run_batch(&jobs);
    assert_eq!(outcome.downloaded, vec!["a", "a"]);
}

#[test]
fn duplicate_terminal_events_keep_reports() {
    let events = vec![
        Status::finished("b".to_string(), true),
        Status::finished("a".to_string(), true),
        Status::finished("c".to_string(), false),
    ];
    let r = image_puller::aggregate::reduce_events(&events);
    assert_eq!(r, vec!["a", "b"]);
}
