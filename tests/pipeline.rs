use web_scrape::{
    render_batch, Action, ConfigError, Event, JobQueue, OutThread, ScrapeJob, Take, WebScrape,
};

#[test]
fn zero_workers_is_a_configuration_error() {
    assert!(matches!(WebScrape::new(0), Err(ConfigError::ZeroWorkers)));
}

#[test]
fn builder_sets_each_field() {
    let w = WebScrape::new(3).unwrap();
    assert_eq!(w.thread_count(), 3);
    assert_eq!(w.file_name(), "");
    assert_eq!(w.regex(), "");
    assert_eq!(w.url_count(), 0);
    let w = w.add_url("http://a").add_url("http://b").set_file("out.txt").set_regex("x+");
    assert_eq!(w.file_name(), "out.txt");
    assert_eq!(w.regex(), "x+");
    assert_eq!(w.url_count(), 2);
    assert_eq!(w.thread_count(), 3);
}

#[test]
fn job_queue_holds_one_job_per_url_in_order() {
    let w = WebScrape::new(2).unwrap().set_regex("p").add_url("u1").add_url("u2").add_url("u3");
    let mut q = w.job_queue();
    let mut urls = Vec::new();
    loop {
        match q.take() {
            Take::Job(j) => {
                assert_eq!(j.regex(), "p");
                urls.push(j.url().to_string());
            }
            Take::Wait => panic!("the run's queue is closed"),
            Take::Closed => break,
        }
    }
    assert_eq!(urls, vec!["u1", "u2", "u3"]);
}

#[test]
fn each_job_is_taken_by_exactly_one_worker() {
    let mut q = JobQueue::new();
    for i in 0..7 {
        assert!(q.submit(ScrapeJob::new("r".to_string(), format!("u{}", i))));
    }
    let workers = 3;
    let mut taken: Vec<Vec<String>> = vec![Vec::new(); workers];
    let mut order = Vec::new();
    let mut w = 0;
    let mut stopped = vec![false; workers];
    q.close();
    assert!(!q.submit(ScrapeJob::new("r".to_string(), "late".to_string())));
    while stopped.iter().any(|s| !s) {
        if !stopped[w] {
            match q.take() {
                Take::Job(j) => {
                    taken[w].push(j.url().to_string());
                    order.push(j.url().to_string());
                }
                Take::Wait => panic!("closed queue never asks to wait"),
                Take::Closed => stopped[w] = true,
            }
        }
        w = (w + 1) % workers;
    }
    let expected: Vec<String> = (0..7).map(|i| format!("u{}", i)).collect();
    assert_eq!(order, expected);
    let total: usize = taken.iter().map(|t| t.len()).sum();
    assert_eq!(total, 7);
    assert!(q.is_empty());
}

#[test]
fn open_empty_queue_asks_to_wait() {
    let mut q = JobQueue::new();
    assert!(matches!(q.take(), Take::Wait));
    q.submit(ScrapeJob::new("r".to_string(), "u".to_string()));
    assert!(matches!(q.take(), Take::Job(_)));
    assert!(matches!(q.take(), Take::Wait));
    q.close();
    assert!(matches!(q.take(), Take::Closed));
}

#[test]
fn one_failed_job_does_not_stop_the_others() {
    let w = WebScrape::new(2)
        .unwrap()
        .set_regex("hello")
        .add_url("ok1")
        .add_url("broken")
        .add_url("ok2");
    let mut q = w.job_queue();
    let mut out = OutThread::new(16);
    let mut text = String::new();
    let mut failures = 0;
    while let Take::Job(job) = q.take() {
        let fetched = if job.url() == "broken" { None } else { Some("hello") };
        match job.scrape(fetched) {
            Ok(lines) => {
                for line in lines {
                    if let Action::Write(b) = out.step(Event::Line(line)) {
                        text.push_str(&render_batch(&b));
                    }
                }
            }
            Err(_) => failures += 1,
        }
    }
    match out.step(Event::Closed) {
        Action::Complete(Some(b)) => text.push_str(&render_batch(&b)),
        _ => panic!("the remaining lines go with the completion"),
    }
    assert_eq!(failures, 1);
    assert_eq!(text, "hello\nhello\n");
}
