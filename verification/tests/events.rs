use image_puller::status::Progress;
use image_puller::status::PullChunk;
use image_puller::status::PullError;
use image_puller::status::Status;
use image_puller::status::did_download;

#[test]
fn test_pass() {
    println!("whoop");
}

#[test]
fn marker_found_in_status_line() {
    assert!(did_download("Status: Downloaded newer image for alpine:latest"));
}

#[test]
fn marker_exact_phrase_only() {
    assert!(did_download("Downloaded newer image"));
    assert!(!did_download("Downloaded newer"));
    assert!(!did_download("Image is up to date for alpine:latest"));
    assert!(!did_download(""));
    assert!(!did_download("downloaded newer image"));
}

#[test]
fn from_chunk_accepts_pull_status() {
    let chunk = PullChunk::PullStatus {
        status: "Pulling fs layer".to_string(),
        id: Some("a1b2".to_string()),
        progress: Some("[=>   ]".to_string()),
        progress_detail: None,
    };
    let s = Status::from_chunk("alpine".to_string(), chunk).unwrap();
    assert_eq!(s.image, "alpine");
    assert_eq!(s.status, "Pulling fs layer");
    assert_eq!(s.id, Some("a1b2".to_string()));
    assert_eq!(s.progress, Some("[=>   ]".to_string()));
    assert!(!s.did_download);
}

#[test]
fn from_chunk_rejects_update() {
    let chunk = PullChunk::Update { stream: "Step 1/3".to_string() };
    let r = Status::from_chunk("alpine".to_string(), chunk);
    assert_eq!(r.unwrap_err(), PullError::UnexpectedChunk);
}

#[test]
fn from_chunk_rejects_error_chunk() {
    let chunk = PullChunk::Error { message: "manifest unknown".to_string() };
    let r = Status::from_chunk("alpine".to_string(), chunk);
    assert_eq!(r.unwrap_err(), PullError::UnexpectedChunk);
}

#[test]
fn from_chunk_rejects_digest() {
    let chunk = PullChunk::Digest { digest: "sha256:0000".to_string() };
    let r = Status::from_chunk("alpine".to_string(), chunk);
    assert_eq!(r.unwrap_err(), PullError::UnexpectedChunk);
}

#[test]
fn finished_event_shape() {
    let s = Status::finished("alpine".to_string(), true);
    assert_eq!(s.image, "alpine");
    assert_eq!(s.status, "Finished");
    assert_eq!(s.id, None);
    assert_eq!(s.progress, None);
    assert!(s.progress_detail.is_none());
    assert!(s.did_download);
    let s = Status::finished("busybox".to_string(), false);
    assert!(!s.did_download);
}

#[test]
fn marker_at_either_end() {
    assert!(did_download("Downloaded newer image for alpine"));
    assert!(did_download("Status: Downloaded newer image"));
}

#[test]
fn from_chunk_keeps_progress_detail() {
    let chunk = PullChunk::PullStatus {
        status: "Downloading".to_string(),
        id: None,
        progress: None,
        progress_detail: Some(Progress { current: Some(10), total: Some(100) }),
    };
    let s = Status::from_chunk("alpine".to_string(), chunk).unwrap();
    assert_eq!(s.progress_detail, Some(Progress { current: Some(10), total: Some(100) }));
}

#[test]
fn error_description() {
    assert_eq!(PullError::UnexpectedChunk.describe(), "expected pullstatus");
}
