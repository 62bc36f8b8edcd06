use vstd::prelude::*;
use crate::pattern::string_views;
use crate::job::{JobQueue, JobView, QueueView, ScrapeJob};

verus! {

/// Abstract value of a [`WebScrape`] configuration.
pub struct WebScrapeView {
    pub file_name: Seq<char>,
    pub regex: Seq<char>,
    pub thread_count: nat,
    pub urls: Seq<Seq<char>>,
}

/// Reason a pipeline configuration is rejected.
#[derive(Debug, Clone, Copy, PartialEq, Eq, Structural)]
pub enum ConfigError {
    /// A pool of zero workers was requested.
    ZeroWorkers,
}

/// Configuration of one scraping run: where the matches go, which pattern
/// filters the documents, how many workers fetch them, and which URLs.
pub struct WebScrape {
    file_name: String,
    regex: String,
    thread_count: usize,
    urls: Vec<String>,
}

impl WebScrape {
    /// A configuration always has at least one worker.
    #[verifier::type_invariant]
    spec fn inv(&self) -> bool {
        self.thread_count >= 1
    }
}

impl View for WebScrape {
    type V = WebScrapeView;

    closed spec fn view(&self) -> WebScrapeView {
        WebScrapeView {
            file_name: self.file_name@,
            regex: self.regex@,
            thread_count: self.thread_count as nat,
            urls: string_views(self.urls@),
        }
    }
}

fn clone_urls(urls: &Vec<String>) -> (r: Vec<String>)
    ensures
        string_views(r@) == string_views(urls@),
{
    let mut r: Vec<String> = Vec::new();
    let mut i: usize = 0;
    while i < urls.len()
        invariant
            i <= urls.len(),
            string_views(r@) == string_views(urls@.subrange(0, i as int)),
        decreases urls.len() - i,
    {
        let ghost prev = r@;
        let u = urls[i].clone();
        assert(u@ == urls@[i as int]@);
        r.push(u);
        assert(string_views(r@) =~= string_views(prev).push(u@));
        assert(urls@.subrange(0, i + 1) =~= urls@.subrange(0, i as int).push(urls@[i as int]));
        assert(string_views(urls@.subrange(0, i + 1)) =~= string_views(
            urls@.subrange(0, i as int),
        ).push(urls@[i as int]@));
        i = i + 1;
    }
    assert(urls@.subrange(0, i as int) =~= urls@);
    r
}

impl WebScrape {
    /// A configuration for `thread_count` workers, with an empty file name, an
    /// empty pattern and no URLs. Zero workers is a configuration error.
    pub fn new(thread_count: usize) -> (r: Result<WebScrape, ConfigError>)
        ensures
            thread_count == 0 <==> r is Err,
            r is Err ==> r->Err_0 == ConfigError::ZeroWorkers,
            r is Ok ==> r->Ok_0@ == (WebScrapeView {
                file_name: Seq::empty(),
                regex: Seq::empty(),
                thread_count: thread_count as nat,
                urls: Seq::empty(),
            }),
    {
        if thread_count == 0 {
            return Err(ConfigError::ZeroWorkers);
        }
        let r = WebScrape {
            file_name: String::new(),
            regex: String::new(),
            thread_count,
            urls: Vec::new(),
        };
        assert(string_views(r.urls@) =~= Seq::empty());
        Ok(r)
    }

    /// A copy of this configuration with `url` appended to the URL list.
    pub fn add_url(&self, url: &str) -> (r: WebScrape)
        ensures
            r@ == (WebScrapeView { urls: self@.urls.push(url@), ..self@ }),
    {
        proof {
            use_type_invariant(self);
        }
        let mut urls = clone_urls(&self.urls);
        let ghost before = urls@;
        urls.push(url.to_string());
        assert(string_views(urls@) =~= string_views(before).push(url@));
        WebScrape {
            file_name: self.file_name.clone(),
            regex: self.regex.clone(),
            thread_count: self.thread_count,
            urls,
        }
    }

    /// A copy of this configuration that writes to `file_name`.
    pub fn set_file(&self, file_name: &str) -> (r: WebScrape)
        ensures
            r@ == (WebScrapeView { file_name: file_name@, ..self@ }),
    {
        proof {
            use_type_invariant(self);
        }
        WebScrape {
            file_name: file_name.to_string(),
            regex: self.regex.clone(),
            thread_count: self.thread_count,
            urls: clone_urls(&self.urls),
        }
    }

    /// A copy of this configuration that filters with `regex`.
    pub fn set_regex(&self, regex: &str) -> (r: WebScrape)
        ensures
            r@ == (WebScrapeView { regex: regex@, ..self@ }),
    {
        proof {
            use_type_invariant(self);
        }
        WebScrape {
            file_name: self.file_name.clone(),
            regex: regex.to_string(),
            thread_count: self.thread_count,
            urls: clone_urls(&self.urls),
        }
    }
    /// The jobs of this run, one per URL in list order, each with this
    /// configuration's pattern.
    pub open spec fn jobs_spec(&self) -> Seq<JobView> {
        self@.urls.map_values(|u: Seq<char>| JobView { regex: self@.regex, url: u })
    }

    /// The queue of this run: one job per URL, in list order, with
    /// submission already ended so that the workers stop once it is drained.
    pub fn job_queue(&self) -> (r: JobQueue)
        ensures
            r@ == (QueueView { pending: self.jobs_spec(), closed: true }),
    {
        let mut q = JobQueue::new();
        let mut i: usize = 0;
        assert(self.jobs_spec().subrange(0, 0) =~= Seq::empty());
        while i < self.urls.len()
            invariant
                i <= self.urls.len(),
                q@ == (QueueView {
                    pending: self.jobs_spec().subrange(0, i as int),
                    closed: false,
                }),
            decreases self.urls.len() - i,
        {
            let job = ScrapeJob::new(self.regex.clone(), self.urls[i].clone());
            q.submit(job);
            i = i + 1;
            assert(q@.pending =~= self.jobs_spec().subrange(0, i as int));
        }
        q.close();
        assert(self.jobs_spec().subrange(0, i as int) =~= self.jobs_spec());
        q
    }

    /// The destination file's name.
    pub fn file_name(&self) -> (r: &str)
        ensures
            r@ == self@.file_name,
    {
        self.file_name.as_str()
    }

    /// The pattern each job filters with.
    pub fn regex(&self) -> (r: &str)
        ensures
            r@ == self@.regex,
    {
        self.regex.as_str()
    }

    /// The number of workers; never zero.
    pub fn thread_count(&self) -> (r: usize)
        ensures
            r as nat == self@.thread_count,
            r >= 1,
    {
        proof {
            use_type_invariant(self);
        }
        self.thread_count
    }

    /// The number of URLs.
    pub fn url_count(&self) -> (r: usize)
        ensures
            r as nat == self@.urls.len(),
    {
        self.urls.len()
    }
}

} // verus!
