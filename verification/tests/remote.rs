use influxdb3_write::remote_write_buffer::{
    answer_has_rows, check_status, hot_chunks_endpoint, request_result, tails_to_read,
    RemoteHotChunksError, RemoteWriteBuffer, RemoteWriterTarget,
};
use influxdb3_write::duration::Duration;

fn target(node_id: Option<&str>) -> RemoteWriterTarget {
    RemoteWriterTarget { node_id: node_id.map(|n| n.to_string()), url: "http://w".to_string() }
}

#[test]
fn empty_urls_returns_empty() {
    let rwb = RemoteWriteBuffer::new(Vec::new(), Duration::from_millis(50));
    assert!(rwb.fetch_hot_chunks::<u32>(vec![]).is_none());
}

#[test]
fn unreachable_url_logs_but_does_not_error() {
    let rwb = RemoteWriteBuffer::new(
        vec!["http://127.0.0.1:1".to_string()],
        Duration::from_millis(150),
    );
    assert_eq!(rwb.request_timeout(), Duration::from_millis(150));
    assert_eq!(rwb.writer_targets()[0].url, "http://127.0.0.1:1");
    assert_eq!(rwb.writer_targets()[0].node_id, None);
    let refused = Err(RemoteHotChunksError::Reqwest("connection refused".to_string()));
    assert!(rwb.fetch_hot_chunks::<u32>(vec![refused]).is_none());
}

#[test]
fn answers_are_collected_in_order() {
    let writers = vec![target(Some("a")), target(Some("b")), target(None), target(Some("a"))];
    let outcomes = vec![
        Ok(vec![1, 2]),
        Err(RemoteHotChunksError::Timeout),
        Ok(vec![3]),
        Ok(vec![]),
    ];
    let rwb = RemoteWriteBuffer::with_targets(writers, Duration::from_secs(1));
    let fetch = rwb.fetch_hot_chunks(outcomes).unwrap();
    assert_eq!(fetch.batches, vec![1, 2, 3]);
    assert_eq!(fetch.reachable_node_ids, vec!["a"]);
    assert!(!fetch.fully_mapped);

    let rwb = RemoteWriteBuffer::with_targets(vec![target(Some("a"))], Duration::from_secs(1));
    let fetch = rwb.fetch_hot_chunks::<u32>(vec![Ok(vec![])]).unwrap();
    assert!(fetch.fully_mapped, "an empty answer is an answer");
}

#[test]
fn log_tails_stand_in_for_writers_that_did_not_answer() {
    let tails = vec!["a".to_string(), "b".to_string()];
    let mapped = RemoteWriteBuffer::with_targets(
        vec![target(Some("a")), target(Some("b"))],
        Duration::from_secs(1),
    );
    let some = mapped.fetch_hot_chunks(vec![Ok(vec![1]), Err(RemoteHotChunksError::Timeout)]);
    assert_eq!(tails_to_read(&some, &tails), vec!["b"]);
    let all = mapped.fetch_hot_chunks(vec![Ok(vec![1]), Ok(vec![2])]);
    assert!(tails_to_read(&all, &tails).is_empty());
    let timeout = || Err(RemoteHotChunksError::Timeout);
    let none = mapped.fetch_hot_chunks::<u32>(vec![timeout(), timeout()]);
    assert_eq!(tails_to_read(&none, &tails), tails);

    // Without node ids it is all or nothing.
    let unmapped =
        RemoteWriteBuffer::with_targets(vec![target(None), target(None)], Duration::from_secs(1));
    let some = unmapped.fetch_hot_chunks(vec![Ok(vec![1]), Err(RemoteHotChunksError::Timeout)]);
    assert!(tails_to_read(&some, &tails).is_empty());
}

#[test]
fn requests_are_labelled() {
    assert_eq!(request_result::<u32>(&Ok(vec![])), "ok");
    assert_eq!(request_result::<u32>(&Err(RemoteHotChunksError::Timeout)), "timeout");
    assert_eq!(request_result::<u32>(&Err(RemoteHotChunksError::HttpStatus(500))), "error");
    assert_eq!(request_result::<u32>(&Err(RemoteHotChunksError::Arrow("x".to_string()))), "error");
}

#[test]
fn endpoints_and_statuses() {
    assert_eq!(hot_chunks_endpoint("http://w:8181//"), "http://w:8181/api/v3/internal/hot_chunks");
    assert_eq!(hot_chunks_endpoint("http://w"), "http://w/api/v3/internal/hot_chunks");
    assert_eq!(check_status(200), Ok(()));
    assert_eq!(check_status(299), Ok(()));
    assert_eq!(check_status(300), Err(RemoteHotChunksError::HttpStatus(300)));
    assert_eq!(check_status(199), Err(RemoteHotChunksError::HttpStatus(199)));
    assert_eq!(answer_has_rows(200, &vec![1]), Ok(true));
    assert_eq!(answer_has_rows(204, &vec![]), Ok(false));
    assert_eq!(answer_has_rows(500, &vec![1]), Err(RemoteHotChunksError::HttpStatus(500)));
}

#[test]
fn warnings_are_spaced_out() {
    let mut log = RemoteWriteBuffer::new(Vec::new(), Duration::from_secs(1));
    assert!(log.warn_once("u", 1_000));
    assert!(!log.warn_once("u", 60_999));
    assert!(log.warn_once("v", 60_999));
    assert!(log.warn_once("u", 61_000));
    assert!(!log.warn_once("u", 5));
}
