use hn_buffer::article::{ArticleBuffer, ArticleResult};

fn fetch_body(id: i32) -> Result<String, String> {
    Ok(format!("body-{}", id))
}

fn drive_worker(buf: &mut ArticleBuffer, fetch: &dyn Fn(i32) -> Result<String, String>) {
    while let Some(id) = buf.next_request() {
        buf.complete(fetch(id));
    }
}

fn expect_text(r: Option<ArticleResult>, want: &str) {
    match r {
        Some(ArticleResult::Text(t)) => assert_eq!(t, want),
        other => panic!("expected text {:?}, got {:?}", want, other),
    }
}

#[test]
fn results_come_in_submission_order() {
    let mut buf = ArticleBuffer::new(vec![1, 2, 3]);
    drive_worker(&mut buf, &fetch_body);
    expect_text(buf.next(), "body-1");
    expect_text(buf.next(), "body-2");
    expect_text(buf.next(), "body-3");
    assert!(buf.next().is_none());
}

#[test]
fn order_kept_when_polls_interleave_with_fetches() {
    let mut buf = ArticleBuffer::new(vec![1, 2, 3]);
    assert!(matches!(buf.next(), Some(ArticleResult::Waiting)));
    let id = buf.next_request().unwrap();
    assert_eq!(id, 1);
    buf.complete(fetch_body(id));
    let id = buf.next_request().unwrap();
    assert_eq!(id, 2);
    buf.complete(fetch_body(id));
    expect_text(buf.next(), "body-1");
    let id = buf.next_request().unwrap();
    assert_eq!(id, 3);
    expect_text(buf.next(), "body-2");
    assert!(matches!(buf.next(), Some(ArticleResult::Waiting)));
    buf.complete(fetch_body(id));
    assert!(buf.next_request().is_none());
    expect_text(buf.next(), "body-3");
    assert!(buf.next().is_none());
}

#[test]
fn first_poll_waits() {
    let mut buf = ArticleBuffer::new(vec![7]);
    assert!(buf.is_running());
    assert!(matches!(buf.next(), Some(ArticleResult::Waiting)));
    assert!(matches!(buf.next(), Some(ArticleResult::Waiting)));
    assert_eq!(buf.next_request(), Some(7));
}

#[test]
fn empty_list_is_exhausted_at_once() {
    let mut buf = ArticleBuffer::new(vec![]);
    assert!(!buf.is_running());
    assert!(buf.next_request().is_none());
    assert!(buf.next().is_none());
    assert!(buf.next().is_none());
}

#[test]
fn exhaustion_is_final() {
    let mut buf = ArticleBuffer::new(vec![4, 5]);
    drive_worker(&mut buf, &fetch_body);
    let mut seen = 0;
    loop {
        match buf.next() {
            Some(ArticleResult::Text(_)) => seen += 1,
            Some(other) => panic!("unexpected {:?}", other),
            None => break,
        }
    }
    assert_eq!(seen, 2);
    for _ in 0..5 {
        assert!(buf.next().is_none());
    }
    buf.complete(Ok(String::from("late")));
    assert!(buf.next().is_none());
}

#[test]
fn every_body_is_handed_out_once() {
    let ids: Vec<i32> = (0..10).collect();
    let mut buf = ArticleBuffer::new(ids.clone());
    drive_worker(&mut buf, &fetch_body);
    let mut got = Vec::new();
    while let Some(r) = buf.next() {
        match r {
            ArticleResult::Text(t) => got.push(t),
            other => panic!("unexpected {:?}", other),
        }
    }
    let want: Vec<String> = ids.iter().map(|i| format!("body-{}", i)).collect();
    assert_eq!(got, want);
}

#[test]
fn duplicate_ids_are_each_fetched() {
    let mut buf = ArticleBuffer::new(vec![9, 9]);
    drive_worker(&mut buf, &fetch_body);
    expect_text(buf.next(), "body-9");
    expect_text(buf.next(), "body-9");
    assert!(buf.next().is_none());
}

#[test]
fn failed_fetch_does_not_stop_the_rest() {
    let mut buf = ArticleBuffer::new(vec![1, 2, 3]);
    let fetch = |id: i32| {
        if id == 2 {
            Err(String::from("not found"))
        } else {
            fetch_body(id)
        }
    };
    drive_worker(&mut buf, &fetch);
    expect_text(buf.next(), "body-1");
    match buf.next() {
        Some(ArticleResult::Failed(id, reason)) => {
            assert_eq!(id, 2);
            assert_eq!(reason, "not found");
        },
        other => panic!("expected a failure, got {:?}", other),
    }
    expect_text(buf.next(), "body-3");
    assert!(buf.next().is_none());
}

#[test]
fn cancel_stops_fetching_but_keeps_results() {
    let mut buf = ArticleBuffer::new(vec![1, 2, 3]);
    let id = buf.next_request().unwrap();
    buf.complete(fetch_body(id));
    let id = buf.next_request().unwrap();
    buf.cancel();
    buf.complete(fetch_body(id));
    assert!(!buf.is_running());
    assert!(buf.next_request().is_none());
    expect_text(buf.next(), "body-1");
    assert!(buf.next().is_none());
}
