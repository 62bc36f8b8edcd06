use vstd::prelude::*;

verus! {

#[verifier::external_type_specification]
#[verifier::external_body]
pub struct ExRegex(regex::Regex);

#[verifier::external_type_specification]
#[verifier::external_body]
pub struct ExRegexError(regex::Error);

/// Whether `regex::Regex::new` accepts a pattern.
pub uninterp spec fn pattern_compiles(pattern: Seq<char>) -> bool;

/// Whether the regular expression written `pattern` matches somewhere in `text`.
pub uninterp spec fn pattern_matches(pattern: Seq<char>, text: Seq<char>) -> bool;

/// The pieces of `s` between its `.` characters, in order, empty pieces
/// included: a text without a dot is one piece, and each dot adds one.
pub open spec fn sentences(s: Seq<char>) -> Seq<Seq<char>>
    decreases s.len(),
{
    if s.len() == 0 {
        seq![Seq::empty()]
    } else {
        let r = sentences(s.drop_last());
        if s.last() == '.' {
            r.push(Seq::empty())
        } else {
            r.update(r.len() - 1, r.last().push(s.last()))
        }
    }
}

/// The sentences of `body` in which `pattern` matches, in document order.
pub open spec fn matching_sentences(pattern: Seq<char>, body: Seq<char>) -> Seq<Seq<char>> {
    sentences(body).filter(|l: Seq<char>| pattern_matches(pattern, l))
}

/// The pieces whose verdict is `true`, in order.
pub open spec fn selected(pieces: Seq<Seq<char>>, keep: Seq<bool>) -> Seq<Seq<char>>
    decreases pieces.len(),
{
    if pieces.len() == 0 {
        Seq::empty()
    } else {
        let prev = selected(pieces.drop_last(), keep.take(pieces.len() - 1));
        if keep[pieces.len() - 1] {
            prev.push(pieces.last())
        } else {
            prev
        }
    }
}

/// Selecting by the verdicts of a predicate is filtering by it.
pub proof fn lemma_selected_filter(pieces: Seq<Seq<char>>, pred: spec_fn(Seq<char>) -> bool)
    ensures
        selected(pieces, pieces.map_values(pred)) == pieces.filter(pred),
    decreases pieces.len(),
{
    reveal(Seq::filter);
    if pieces.len() > 0 {
        let n = pieces.len() - 1;
        assert(pieces.map_values(pred).take(n as int) =~= pieces.drop_last().map_values(pred));
        lemma_selected_filter(pieces.drop_last(), pred);
    }
}

/// The views of a sequence of strings.
pub open spec fn str_views(v: Seq<&str>) -> Seq<Seq<char>> {
    v.map_values(|s: &str| s@)
}

/// The views of a sequence of owned strings.
pub open spec fn string_views(v: Seq<String>) -> Seq<Seq<char>> {
    v.map_values(|s: String| s@)
}

/// Relies on `regex::Regex::new`: whether it returns `Ok` depends on the
/// pattern's text alone.
#[verifier::external_body]
fn compile(pattern: &str) -> (r: Result<regex::Regex, regex::Error>)
    ensures
        r is Ok <==> pattern_compiles(pattern@),
{
    regex::Regex::new(pattern)
}

/// Relies on `str::split` with a `char` separator: the pieces between the
/// separators, in order, including empty ones.
#[verifier::external_body]
fn split_sentences(s: &str) -> (r: Vec<&str>)
    ensures
        str_views(r@) == sentences(s@),
{
    s.split('.').collect()
}

/// Reason a pattern cannot be used.
#[derive(Debug, Clone, Copy, PartialEq, Eq, Structural)]
pub enum PatternError {
    /// The pattern is not a valid regular expression.
    Invalid,
}

/// A compiled regular expression together with the text it was compiled
/// from. `Pattern::new` is its one constructor, so `re` is always the
/// compilation of `source`.
pub struct Pattern {
    re: regex::Regex,
    source: String,
}

impl View for Pattern {
    type V = Seq<char>;

    closed spec fn view(&self) -> Seq<char> {
        self.source@
    }
}

/// Relies on `regex::Regex::is_match`: whether a compiled pattern matches
/// depends on the pattern's text and on the haystack alone. `p.re` is the
/// compilation of `p.source`, whose text is `p@`.
#[verifier::external_body]
fn regex_is_match(p: &Pattern, text: &str) -> (r: bool)
    ensures
        r == pattern_matches(p@, text@),
{
    p.re.is_match(text)
}

impl Pattern {
    /// Compiles `pattern`; fails exactly when it is not a valid regular
    /// expression.
    pub fn new(pattern: &str) -> (r: Result<Pattern, PatternError>)
        ensures
            r is Ok <==> pattern_compiles(pattern@),
            r is Ok ==> r->Ok_0@ == pattern@,
            r is Err ==> r == Err::<Pattern, PatternError>(PatternError::Invalid),
    {
        match compile(pattern) {
            Ok(re) => Ok(Pattern { re, source: pattern.to_string() }),
            Err(_) => Err(PatternError::Invalid),
        }
    }

    /// The sentences of `body` (its pieces between dots) in which this
    /// pattern matches, in document order.
    pub fn matched_lines(&self, body: &str) -> (r: Vec<String>)
        ensures
            string_views(r@) == matching_sentences(self@, body@),
    {
        let pieces = split_sentences(body);
        let ghost pred = |l: Seq<char>| pattern_matches(self@, l);
        let mut keep: Vec<bool> = Vec::new();
        let mut i: usize = 0;
        while i < pieces.len()
            invariant
                i <= pieces.len(),
                pred == (|l: Seq<char>| pattern_matches(self@, l)),
                keep@ == str_views(pieces@).take(i as int).map_values(pred),
            decreases pieces.len() - i,
        {
            keep.push(regex_is_match(self, pieces[i]));
            i = i + 1;
            assert(keep@ =~= str_views(pieces@).take(i as int).map_values(pred));
        }
        assert(str_views(pieces@).take(i as int) =~= str_views(pieces@));
        proof {
            lemma_selected_filter(sentences(body@), pred);
        }
        keep_selected(&pieces, &keep)
    }
}

/// The pieces whose verdict is `true`, in order, as owned strings.
pub fn keep_selected(pieces: &Vec<&str>, keep: &Vec<bool>) -> (r: Vec<String>)
    requires
        keep@.len() == pieces@.len(),
    ensures
        string_views(r@) == selected(str_views(pieces@), keep@),
{
    let mut r: Vec<String> = Vec::new();
    let mut i: usize = 0;
    while i < pieces.len()
        invariant
            i <= pieces.len(),
            keep@.len() == pieces@.len(),
            string_views(r@) == selected(str_views(pieces@).take(i as int), keep@.take(i as int)),
        decreases pieces.len() - i,
    {
        let ghost prev = r@;
        let ghost s = str_views(pieces@).take(i + 1);
        assert(s.drop_last() =~= str_views(pieces@).take(i as int));
        assert(keep@.take(i + 1).take(i as int) =~= keep@.take(i as int));
        if keep[i] {
            r.push(pieces[i].to_string());
            assert(string_views(r@) =~= string_views(prev).push(pieces@[i as int]@));
        }
        i = i + 1;
    }
    assert(str_views(pieces@).take(i as int) =~= str_views(pieces@));
    assert(keep@.take(i as int) =~= keep@);
    r
}

} // verus!
