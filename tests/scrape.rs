use web_scrape::{keep_selected, JobError, Pattern, PatternError, ScrapeJob};

#[test]
fn scrape_regex_test() {
    let test = Pattern::new(r"(\d{3})-(\d{3})-(\d{4})").unwrap();
    let test_data = "508-298-5308 hello there\n";
    let lines = test.matched_lines(test_data);
    for line in &lines {
        println!("{}", line);
    }
    assert_eq!(lines, vec!["508-298-5308 hello there\n".to_string()]);
}

#[test]
fn simple_regex() {
    let test = Pattern::new(r"hello").unwrap();
    let text = "hello there sir\ni am here";
    let lines = test.matched_lines(text);
    for line in &lines {
        println!("{}", line);
    }
    assert_eq!(lines, vec![text.to_string()]);
}

#[test]
fn sentences_are_split_on_dots_and_filtered() {
    let p = Pattern::new("b").unwrap();
    assert_eq!(p.matched_lines("a.b.cb"), vec!["b".to_string(), "cb".to_string()]);
    let none = Pattern::new("zzz").unwrap();
    assert!(none.matched_lines("a.b.c").is_empty());
}

#[test]
fn empty_pieces_are_kept_for_empty_pattern() {
    let p = Pattern::new("").unwrap();
    assert_eq!(
        p.matched_lines("a..b."),
        vec!["a".to_string(), String::new(), "b".to_string(), String::new()]
    );
    assert_eq!(p.matched_lines(""), vec![String::new()]);
}

#[test]
fn invalid_pattern_is_rejected() {
    assert!(matches!(Pattern::new("(unclosed"), Err(PatternError::Invalid)));
}

#[test]
fn job_keeps_matching_sentences() {
    let job = ScrapeJob::new("hello".to_string(), "https://example.com".to_string());
    assert_eq!(job.url(), "https://example.com");
    assert_eq!(job.regex(), "hello");
    let lines = job.scrape(Some("hello world. goodbye. hello again")).unwrap();
    assert_eq!(lines, vec!["hello world".to_string(), " hello again".to_string()]);
}

#[test]
fn job_with_failed_fetch_fails() {
    let job = ScrapeJob::new("hello".to_string(), "https://example.com".to_string());
    assert_eq!(job.scrape(None), Err(JobError::Fetch));
}

#[test]
fn job_with_invalid_pattern_fails_first() {
    let job = ScrapeJob::new("[".to_string(), "https://example.com".to_string());
    assert_eq!(job.scrape(None), Err(JobError::InvalidPattern));
    assert_eq!(job.scrape(Some("[")), Err(JobError::InvalidPattern));
}

#[test]
fn keep_selected_follows_the_verdicts() {
    let pieces = vec!["a", "b", "c"];
    assert_eq!(keep_selected(&pieces, &vec![false, true, true]), vec!["b".to_string(), "c".to_string()]);
    assert!(keep_selected(&pieces, &vec![false, false, false]).is_empty());
}

#[test]
fn test_scrape() {
    let test_job = ScrapeJob::new(String::from("google"), String::from("https://www.google.com"));
    let body = "Search with google. Nothing here. google maps and more";
    let lines = test_job.scrape(Some(body)).unwrap();
    for s in &lines {
        println!("{}", s);
    }
    assert_eq!(
        lines,
        vec!["Search with google".to_string(), " google maps and more".to_string()]
    );
}
