//! A concurrent URL scraping pipeline: jobs are taken from one shared queue by
//! a pool of workers, each fetched document is filtered line by line against a
//! pattern, and the matched lines are gathered by a single buffered writer.
//!
//! This crate holds the pipeline's logic and its proofs. The threads, channels,
//! HTTP fetches and file writes are driven by the caller, which hands the
//! library plain values and carries out the actions it returns.

mod config;
mod job;
mod out;
mod pattern;
mod pipeline;

pub use config::{ConfigError, WebScrape, WebScrapeView};
pub use out::{
    accepted, batch_of, completions, fresh, has_closed, lemma_complete_run_writes_every_line,
    lemma_line_events, lemma_render_concat, lemma_run, lemma_written_text, line_events, next,
    render, render_batch, run, written, written_text, Action, ActionView, Event, EventView,
    OutThread, OutView, BUF_SIZE,
};
pub use pattern::{
    keep_selected, lemma_selected_filter, matching_sentences, pattern_compiles, pattern_matches,
    selected, sentences, str_views, string_views, Pattern, PatternError,
};
pub use job::{
    after_close, after_submit, after_take, closed_in, fetched_view, job_output, jobs_of,
    lemma_closed_queue_hands_out_all, lemma_each_job_taken_once, queue_run,
    submitted, JobError, JobQueue, JobView, QueueOp, QueueView, ScrapeJob, Take, TakeView,
};
pub use pipeline::{lemma_configuration_run, lemma_failed_job_adds_nothing, run_output};
