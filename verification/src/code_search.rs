//! Code search: query construction for Sourcegraph and GitHub.

use vstd::prelude::*;
use crate::json::{get_path, json_get, json_items, json_of, json_path, json_str, json_u64, parse_json, string_field, JsonValue};
use crate::text::{decimal, join, join_strings, push_decimal, str_eq};

verus! {

/// Where searches go.
#[derive(Debug, Clone, PartialEq, Eq)]
pub enum SearchProvider {
    Sourcegraph { endpoint: String },
    GitHubCode { token: Option<String> },
}

/// Search settings.
#[derive(Debug, Clone)]
pub struct CodeSearchConfig {
    pub provider: SearchProvider,
    pub max_results: usize,
    pub timeout_secs: u64,
    pub language_filter: Option<String>,
}

/// Default number of results.
pub fn default_max_results() -> (res: usize)
    ensures
        res == 20,
{
    20
}

/// Default request timeout in seconds.
pub fn default_timeout_secs() -> (res: u64)
    ensures
        res == 30,
{
    30
}

impl Default for CodeSearchConfig {
    fn default() -> (res: Self)
        ensures
            res.provider matches SearchProvider::Sourcegraph { endpoint } && endpoint@ == "https://sourcegraph.example/api/graphql"@,
            res.max_results == 20,
            res.timeout_secs == 30,
            res.language_filter is None,
    {
        CodeSearchConfig {
            provider: SearchProvider::Sourcegraph {
                endpoint: String::from_str("https://sourcegraph.example/api/graphql"),
            },
            max_results: default_max_results(),
            timeout_secs: default_timeout_secs(),
            language_filter: None,
        }
    }
}

/// A search request.
#[derive(Debug, Clone, PartialEq, Eq)]
pub struct CodeSearchQuery {
    pub query: String,
    pub language: Option<String>,
    pub repo_filter: Option<String>,
    pub file_filter: Option<String>,
    pub max_results: Option<usize>,
}

/// One search hit.
#[derive(Debug, Clone, PartialEq, Eq)]
pub struct CodeSearchResult {
    pub file_path: String,
    pub repo: String,
    pub line_number: u32,
    pub content: String,
    pub language: Option<String>,
    pub url: String,
}

/// Search client.
pub struct CodeSearchClient {
    pub config: CodeSearchConfig,
}

/// Search failures.
#[derive(Debug, PartialEq, Eq)]
pub enum SearchError {
    NetworkError(String),
    ParseError(String),
    RateLimited(u64),
    AuthenticationRequired,
    ProviderUnavailable(String),
}

/// The message of an error.
pub open spec fn error_message(e: SearchError) -> Seq<char> {
    match e {
        SearchError::NetworkError(m) => "network error: "@ + m@,
        SearchError::ParseError(m) => "parse error: "@ + m@,
        SearchError::RateLimited(s) => "rate limited, retry in "@ + decimal(s as nat) + "s"@,
        SearchError::AuthenticationRequired => "authentication required"@,
        SearchError::ProviderUnavailable(m) => "provider unavailable: "@ + m@,
    }
}

impl SearchError {
    /// The error's message.
    pub fn to_string(&self) -> (res: String)
        ensures
            res@ == error_message(*self),
    {
        match self {
            SearchError::NetworkError(m) => {
                let mut s = String::from_str("network error: ");
                s.append(m.as_str());
                s
            },
            SearchError::ParseError(m) => {
                let mut s = String::from_str("parse error: ");
                s.append(m.as_str());
                s
            },
            SearchError::RateLimited(secs) => {
                let mut s = String::from_str("rate limited, retry in ");
                push_decimal(&mut s, *secs);
                s.append("s");
                s
            },
            SearchError::AuthenticationRequired => String::from_str("authentication required"),
            SearchError::ProviderUnavailable(m) => {
                let mut s = String::from_str("provider unavailable: ");
                s.append(m.as_str());
                s
            },
        }
    }
}

/// An optional filter term: label followed by the value.
pub open spec fn opt_term(o: Option<String>, label: Seq<char>) -> Seq<Seq<char>> {
    match o {
        Some(v) => seq![label + v@],
        None => seq![],
    }
}

/// The query's language, else the configured language filter.
pub open spec fn effective_language(q: CodeSearchQuery, c: CodeSearchConfig) -> Option<String> {
    if q.language is Some {
        q.language
    } else {
        c.language_filter
    }
}

/// Terms of a Sourcegraph query.
pub open spec fn sourcegraph_terms(q: CodeSearchQuery, c: CodeSearchConfig) -> Seq<Seq<char>> {
    let count: nat = match q.max_results {
        Some(n) => n as nat,
        None => c.max_results as nat,
    };
    seq![q.query@] + opt_term(q.repo_filter, "repo:"@) + opt_term(q.file_filter, "file:"@)
        + opt_term(effective_language(q, c), "lang:"@) + seq!["count:"@ + decimal(count)]
}

/// Terms of a GitHub code search query.
pub open spec fn github_terms(q: CodeSearchQuery, c: CodeSearchConfig) -> Seq<Seq<char>> {
    seq![q.query@] + opt_term(q.repo_filter, "repo:"@) + opt_term(q.file_filter, "path:"@)
        + opt_term(effective_language(q, c), "language:"@)
}

fn push_term(parts: &mut Vec<String>, o: &Option<String>, label: &str)
    ensures
        final(parts).deep_view() == old(parts).deep_view() + opt_term(*o, label@),
{
    match o {
        Some(v) => {
            let ghost before = parts.deep_view();
            let mut s = String::from_str(label);
            s.append(v.as_str());
            parts.push(s);
            assert(parts.deep_view() =~= before + seq![label@ + v@]);
        },
        None => {
            assert(parts.deep_view() =~= parts.deep_view() + Seq::<Seq<char>>::empty());
        },
    }
}

impl CodeSearchClient {
    /// A client with `config`.
    pub fn new(config: CodeSearchConfig) -> (res: Self)
        ensures
            res.config == config,
    {
        CodeSearchClient { config }
    }

    fn language_for(&self, query: &CodeSearchQuery) -> (res: Option<String>)
        ensures
            opt_seq(res) == opt_seq(effective_language(*query, self.config)),
    {
        match &query.language {
            Some(l) => Some(l.clone()),
            None => match &self.config.language_filter {
                Some(l) => Some(l.clone()),
                None => None,
            },
        }
    }

    /// Sourcegraph query text: the query, then `repo:`, `file:`, `lang:` and
    /// `count:` terms, space separated.
    pub fn build_sourcegraph_query(&self, query: &CodeSearchQuery) -> (res: String)
        ensures
            res@ == join(sourcegraph_terms(*query, self.config), " "@),
    {
        let mut parts: Vec<String> = Vec::new();
        parts.push(query.query.clone());
        assert(parts.deep_view() =~= seq![query.query@]);
        push_term(&mut parts, &query.repo_filter, "repo:");
        push_term(&mut parts, &query.file_filter, "file:");
        let lang = self.language_for(query);
        push_term(&mut parts, &lang, "lang:");
        assert(opt_term(lang, "lang:"@) =~= opt_term(effective_language(*query, self.config), "lang:"@));
        let count = match query.max_results {
            Some(n) => n,
            None => self.config.max_results,
        };
        let mut c = String::from_str("count:");
        push_decimal(&mut c, count as u64);
        let ghost before = parts.deep_view();
        parts.push(c);
        assert(parts.deep_view() =~= sourcegraph_terms(*query, self.config));
        join_strings(&parts, " ")
    }

    /// GitHub query text: the query, then `repo:`, `path:` and `language:` terms.
    pub fn build_github_query(&self, query: &CodeSearchQuery) -> (res: String)
        ensures
            res@ == join(github_terms(*query, self.config), " "@),
    {
        let mut parts: Vec<String> = Vec::new();
        parts.push(query.query.clone());
        assert(parts.deep_view() =~= seq![query.query@]);
        push_term(&mut parts, &query.repo_filter, "repo:");
        push_term(&mut parts, &query.file_filter, "path:");
        let lang = self.language_for(query);
        push_term(&mut parts, &lang, "language:");
        assert(opt_term(lang, "language:"@) =~= opt_term(effective_language(*query, self.config), "language:"@));
        assert(parts.deep_view() =~= github_terms(*query, self.config));
        join_strings(&parts, " ")
    }
}

/// Views an optional string.
pub open spec fn opt_seq(o: Option<String>) -> Option<Seq<char>> {
    match o {
        Some(s) => Some(s@),
        None => None,
    }
}

/// A search result as character sequences: path, repository, line,
/// content, language and URL.
pub type ResultView = (Seq<char>, Seq<char>, u32, Seq<char>, Option<Seq<char>>, Seq<char>);

/// The view of a search result.
pub open spec fn result_view(r: CodeSearchResult) -> ResultView {
    (r.file_path@, r.repo@, r.line_number, r.content@, opt_seq(r.language), r.url@)
}

/// The views of a list of results.
pub open spec fn result_views(rs: Seq<CodeSearchResult>) -> Seq<ResultView> {
    rs.map_values(|r: CodeSearchResult| result_view(r))
}

/// Why a response could not be read.
pub enum ResponseFailure {
    RateLimited(u64),
    AuthenticationRequired,
    Parse(Seq<char>),
}

/// Whether an error is the failure described.
pub open spec fn error_is(e: SearchError, f: ResponseFailure) -> bool {
    match (e, f) {
        (SearchError::RateLimited(a), ResponseFailure::RateLimited(b)) => a == b,
        (SearchError::AuthenticationRequired, ResponseFailure::AuthenticationRequired) => true,
        (SearchError::ParseError(m), ResponseFailure::Parse(t)) => m@ == t,
        _ => false,
    }
}

/// The first of two optional texts that is there.
pub open spec fn or_else(a: Option<Seq<char>>, b: Option<Seq<char>>) -> Option<Seq<char>> {
    match a {
        Some(x) => Some(x),
        None => b,
    }
}

/// An optional text, or `d` without one.
pub open spec fn or_default(a: Option<Seq<char>>, d: Seq<char>) -> Seq<char> {
    match a {
        Some(x) => x,
        None => d,
    }
}

/// The text at a path within `v`.
pub open spec fn text_at(v: JsonValue, path: Seq<Seq<char>>) -> Option<Seq<char>> {
    json_str(json_path(v, path))
}

/// A line number that fits in 32 bits, else 0.
pub open spec fn line_of(n: Option<u64>) -> u32 {
    match n {
        Some(x) => if x <= u32::MAX { x as u32 } else { 0 },
        None => 0,
    }
}

/// One Sourcegraph result item, or nothing when it has no file path.
pub open spec fn sourcegraph_item(item: JsonValue) -> Option<ResultView> {
    match or_else(text_at(item, seq!["file"@, "path"@]), text_at(item, seq!["path"@])) {
        Some(path) => Some((
            path,
            or_default(or_else(text_at(item, seq!["repository"@, "name"@]), text_at(item, seq!["repo"@])), "unknown"@),
            line_of(json_u64(json_get(item, "lineNumber"@))),
            or_default(or_else(text_at(item, seq!["content"@]), text_at(item, seq!["preview"@])), Seq::empty()),
            text_at(item, seq!["language"@]),
            or_default(text_at(item, seq!["url"@]), Seq::empty()),
        )),
        None => None,
    }
}

/// One GitHub result item, or nothing when it has no file path.
pub open spec fn github_item(item: JsonValue) -> Option<ResultView> {
    match or_else(text_at(item, seq!["path"@]), text_at(item, seq!["name"@])) {
        Some(path) => Some((
            path,
            or_default(or_else(text_at(item, seq!["repository"@, "full_name"@]), text_at(item, seq!["repository"@, "name"@])), "unknown"@),
            line_of(json_u64(json_get(item, "line_number"@))),
            or_default(first_fragment(item), Seq::empty()),
            text_at(item, seq!["language"@]),
            or_default(or_else(text_at(item, seq!["html_url"@]), text_at(item, seq!["url"@])), Seq::empty()),
        )),
        None => None,
    }
}

/// The fragment of an item's first text match.
pub open spec fn first_fragment(item: JsonValue) -> Option<Seq<char>> {
    match json_items(json_get(item, "text_matches"@)) {
        Some(ms) => if ms.len() > 0 { json_str(json_get(ms[0], "fragment"@)) } else { None },
        None => None,
    }
}

/// Every item read by `f`, or nothing when one of them fails.
pub open spec fn all_items(items: Seq<JsonValue>, github: bool) -> Option<Seq<ResultView>>
    decreases items.len(),
{
    if items.len() == 0 {
        Some(Seq::empty())
    } else {
        match all_items(items.drop_last(), github) {
            Some(rest) => match (if github { github_item(items.last()) } else { sourcegraph_item(items.last()) }) {
                Some(r) => Some(rest.push(r)),
                None => None,
            },
            None => None,
        }
    }
}

/// What a Sourcegraph response holds: a rate limit from its first error,
/// else the results, else why they cannot be read.
pub open spec fn sourcegraph_response(v: JsonValue) -> Result<Seq<ResultView>, ResponseFailure> {
    let limit = match json_items(json_get(v, "errors"@)) {
        Some(es) => if es.len() > 0 { json_u64(json_path(es[0], seq!["extensions"@, "retryAfterSeconds"@])) } else { None },
        None => None,
    };
    match limit {
        Some(n) => Err(ResponseFailure::RateLimited(n)),
        None => match json_items(json_path(v, seq!["data"@, "search"@, "results"@, "results"@])) {
            None => Err(ResponseFailure::Parse("missing sourcegraph results array"@)),
            Some(items) => match all_items(items, false) {
                Some(rs) => Ok(rs),
                None => Err(ResponseFailure::Parse("missing sourcegraph file path"@)),
            },
        },
    }
}

/// What a GitHub response holds: an authentication demand, a rate limit,
/// else the items, else why they cannot be read.
pub open spec fn github_response(v: JsonValue) -> Result<Seq<ResultView>, ResponseFailure> {
    if json_str(json_get(v, "message"@)) == Some("Requires authentication"@) {
        Err(ResponseFailure::AuthenticationRequired)
    } else {
        let limit = match json_u64(json_get(v, "rate_limit_reset"@)) {
            Some(n) => Some(n),
            None => json_u64(json_get(v, "retry_after"@)),
        };
        match limit {
            Some(n) => Err(ResponseFailure::RateLimited(n)),
            None => match json_items(json_get(v, "items"@)) {
                None => Err(ResponseFailure::Parse("missing github items array"@)),
                Some(items) => match all_items(items, true) {
                    Some(rs) => Ok(rs),
                    None => Err(ResponseFailure::Parse("missing github file path"@)),
                },
            },
        }
    }
}

fn opt_str_view(o: &Option<String>) -> (res: Option<String>)
    ensures
        opt_seq(res) == opt_seq(*o),
{
    match o {
        Some(s) => Some(s.clone()),
        None => None,
    }
}

fn first_of(a: Option<String>, b: Option<String>) -> (res: Option<String>)
    ensures
        opt_seq(res) == or_else(opt_seq(a), opt_seq(b)),
{
    match a {
        Some(x) => Some(x),
        None => b,
    }
}

fn text_or(a: Option<String>, d: &str) -> (res: String)
    ensures
        res@ == or_default(opt_seq(a), d@),
{
    match a {
        Some(x) => x,
        None => String::from_str(d),
    }
}

fn line_number_of(v: &JsonValue, key: &str) -> (res: u32)
    ensures
        res == line_of(json_u64(json_get(*v, key@))),
{
    match v.get(key) {
        Some(x) => match x.as_u64() {
            Some(n) => if n <= 0xffff_ffff { n as u32 } else { 0 },
            None => 0,
        },
        None => 0,
    }
}

fn field(v: &JsonValue, path: &[&str]) -> (res: Option<String>)
    ensures
        opt_seq(res) == text_at(*v, path@.map_values(|p: &str| p@)),
{
    string_field(v, path)
}

fn read_sourcegraph_item(item: &JsonValue) -> (res: Option<CodeSearchResult>)
    ensures
        match res {
            Some(r) => sourcegraph_item(*item) == Some(result_view(r)),
            None => sourcegraph_item(*item) is None,
        },
{
    proof {
        reveal_strlit("file");
        reveal_strlit("path");
    }
    let p1 = field(item, &["file", "path"]);
    let p2 = field(item, &["path"]);
    assert(["file", "path"]@.map_values(|p: &str| p@) =~= seq!["file"@, "path"@]);
    assert(["path"]@.map_values(|p: &str| p@) =~= seq!["path"@]);
    let file_path = match first_of(p1, p2) {
        Some(p) => p,
        None => {
            return None;
        },
    };
    let r1 = field(item, &["repository", "name"]);
    let r2 = field(item, &["repo"]);
    assert(["repository", "name"]@.map_values(|p: &str| p@) =~= seq!["repository"@, "name"@]);
    assert(["repo"]@.map_values(|p: &str| p@) =~= seq!["repo"@]);
    let repo = text_or(first_of(r1, r2), "unknown");
    let line_number = line_number_of(item, "lineNumber");
    let c1 = field(item, &["content"]);
    let c2 = field(item, &["preview"]);
    assert(["content"]@.map_values(|p: &str| p@) =~= seq!["content"@]);
    assert(["preview"]@.map_values(|p: &str| p@) =~= seq!["preview"@]);
    let content = text_or(first_of(c1, c2), "");
    let language = field(item, &["language"]);
    assert(["language"]@.map_values(|p: &str| p@) =~= seq!["language"@]);
    let u = field(item, &["url"]);
    assert(["url"]@.map_values(|p: &str| p@) =~= seq!["url"@]);
    let url = text_or(u, "");
    proof {
        reveal_strlit("");
    }
    Some(CodeSearchResult { file_path, repo, line_number, content, language, url })
}

fn fragment_of(item: &JsonValue) -> (res: Option<String>)
    ensures
        opt_seq(res) == first_fragment(*item),
{
    match item.get("text_matches") {
        Some(m) => match m.as_array() {
            Some(ms) => {
                if ms.len() > 0 {
                    match ms[0].get("fragment") {
                        Some(f) => match f.as_str() {
                            Some(s) => Some(String::from_str(s)),
                            None => None,
                        },
                        None => None,
                    }
                } else {
                    None
                }
            },
            None => None,
        },
        None => None,
    }
}

fn read_github_item(item: &JsonValue) -> (res: Option<CodeSearchResult>)
    ensures
        match res {
            Some(r) => github_item(*item) == Some(result_view(r)),
            None => github_item(*item) is None,
        },
{
    let p1 = field(item, &["path"]);
    let p2 = field(item, &["name"]);
    assert(["path"]@.map_values(|p: &str| p@) =~= seq!["path"@]);
    assert(["name"]@.map_values(|p: &str| p@) =~= seq!["name"@]);
    let file_path = match first_of(p1, p2) {
        Some(p) => p,
        None => {
            return None;
        },
    };
    let r1 = field(item, &["repository", "full_name"]);
    let r2 = field(item, &["repository", "name"]);
    assert(["repository", "full_name"]@.map_values(|p: &str| p@) =~= seq!["repository"@, "full_name"@]);
    assert(["repository", "name"]@.map_values(|p: &str| p@) =~= seq!["repository"@, "name"@]);
    let repo = text_or(first_of(r1, r2), "unknown");
    let line_number = line_number_of(item, "line_number");
    let content = text_or(fragment_of(item), "");
    let language = field(item, &["language"]);
    assert(["language"]@.map_values(|p: &str| p@) =~= seq!["language"@]);
    let u1 = field(item, &["html_url"]);
    let u2 = field(item, &["url"]);
    assert(["html_url"]@.map_values(|p: &str| p@) =~= seq!["html_url"@]);
    assert(["url"]@.map_values(|p: &str| p@) =~= seq!["url"@]);
    let url = text_or(first_of(u1, u2), "");
    proof {
        reveal_strlit("");
    }
    Some(CodeSearchResult { file_path, repo, line_number, content, language, url })
}

fn read_items(items: &Vec<JsonValue>, github: bool) -> (res: Option<Vec<CodeSearchResult>>)
    ensures
        match res {
            Some(rs) => all_items(items@, github) == Some(result_views(rs@)),
            None => all_items(items@, github) is None,
        },
{
    let mut out: Vec<CodeSearchResult> = Vec::new();
    let mut i: usize = 0;
    assert(result_views(out@) =~= Seq::<ResultView>::empty());
    while i < items.len()
        invariant
            i <= items@.len(),
            all_items(items@.take(i as int), github) == Some(result_views(out@)),
        decreases items@.len() - i,
    {
        assert(items@.take(i + 1).drop_last() =~= items@.take(i as int));
        assert(items@.take(i + 1).last() == items@[i as int]);
        let r = if github { read_github_item(&items[i]) } else { read_sourcegraph_item(&items[i]) };
        match r {
            Some(x) => {
                let ghost before = result_views(out@);
                out.push(x);
                assert(result_views(out@) =~= before.push(result_view(x)));
            },
            None => {
                proof {
                    lemma_all_items_prefix_none(items@, github, i + 1);
                }
                return None;
            },
        }
        i = i + 1;
    }
    assert(items@.take(items@.len() as int) =~= items@);
    Some(out)
}

proof fn lemma_all_items_prefix_none(items: Seq<JsonValue>, github: bool, n: int)
    requires
        0 <= n <= items.len(),
        all_items(items.take(n), github) is None,
    ensures
        all_items(items, github) is None,
    decreases items.len() - n,
{
    if n < items.len() {
        assert(items.take(n + 1).drop_last() =~= items.take(n));
        lemma_all_items_prefix_none(items, github, n + 1);
    } else {
        assert(items.take(n) =~= items);
    }
}

impl CodeSearchClient {
    /// Parses the text of a Sourcegraph response: text that is no JSON is
    /// a parse error naming serde_json's complaint; a document is read by
    /// [`CodeSearchClient::read_sourcegraph_response`].
    pub fn parse_sourcegraph_response(&self, json_str: &str) -> (res: Result<Vec<CodeSearchResult>, SearchError>)
        ensures
            match json_of(json_str@) {
                Err(m) => res matches Err(SearchError::ParseError(t)) && t@ == "invalid sourcegraph JSON: "@ + m,
                Ok(v) => match res {
                    Ok(rs) => sourcegraph_response(v) == Ok::<Seq<ResultView>, ResponseFailure>(result_views(rs@)),
                    Err(e) => sourcegraph_response(v) matches Err(f) && error_is(e, f),
                },
            },
    {
        match parse_json(json_str) {
            Ok(v) => self.read_sourcegraph_response(&v),
            Err(m) => {
                let mut t = String::from_str("invalid sourcegraph JSON: ");
                t.append(m.as_str());
                Err(SearchError::ParseError(t))
            },
        }
    }

    /// Parses the text of a GitHub code-search response: text that is no
    /// JSON is a parse error naming serde_json's complaint; a document is
    /// read by [`CodeSearchClient::read_github_response`].
    pub fn parse_github_response(&self, json_str: &str) -> (res: Result<Vec<CodeSearchResult>, SearchError>)
        ensures
            match json_of(json_str@) {
                Err(m) => res matches Err(SearchError::ParseError(t)) && t@ == "invalid github JSON: "@ + m,
                Ok(v) => match res {
                    Ok(rs) => github_response(v) == Ok::<Seq<ResultView>, ResponseFailure>(result_views(rs@)),
                    Err(e) => github_response(v) matches Err(f) && error_is(e, f),
                },
            },
    {
        match parse_json(json_str) {
            Ok(v) => self.read_github_response(&v),
            Err(m) => {
                let mut t = String::from_str("invalid github JSON: ");
                t.append(m.as_str());
                Err(SearchError::ParseError(t))
            },
        }
    }

    /// Reads a Sourcegraph response: a rate limit in its first error, else
    /// its result items, each needing a file path.
    pub fn read_sourcegraph_response(&self, value: &JsonValue) -> (res: Result<Vec<CodeSearchResult>, SearchError>)
        ensures
            match res {
                Ok(rs) => sourcegraph_response(*value) == Ok::<Seq<ResultView>, ResponseFailure>(result_views(rs@)),
                Err(e) => sourcegraph_response(*value) matches Err(f) && error_is(e, f),
            },
    {
        let limit = match value.get("errors") {
            Some(errs) => match errs.as_array() {
                Some(es) => if es.len() > 0 {
                    match get_path(&es[0], &["extensions", "retryAfterSeconds"]) {
                        Some(x) => x.as_u64(),
                        None => None,
                    }
                } else {
                    None
                },
                None => None,
            },
            None => None,
        };
        assert(["extensions", "retryAfterSeconds"]@.map_values(|p: &str| p@) =~= seq!["extensions"@, "retryAfterSeconds"@]);
        if let Some(n) = limit {
            return Err(SearchError::RateLimited(n));
        }
        assert(["data", "search", "results", "results"]@.map_values(|p: &str| p@) =~= seq!["data"@, "search"@, "results"@, "results"@]);
        let items = match get_path(value, &["data", "search", "results", "results"]) {
            Some(x) => match x.as_array() {
                Some(items) => items,
                None => {
                    return Err(SearchError::ParseError(String::from_str("missing sourcegraph results array")));
                },
            },
            None => {
                return Err(SearchError::ParseError(String::from_str("missing sourcegraph results array")));
            },
        };
        match read_items(items, false) {
            Some(rs) => Ok(rs),
            None => Err(SearchError::ParseError(String::from_str("missing sourcegraph file path"))),
        }
    }

    /// Reads a GitHub code-search response: an authentication demand, a
    /// rate limit, else its items, each needing a file path.
    pub fn read_github_response(&self, value: &JsonValue) -> (res: Result<Vec<CodeSearchResult>, SearchError>)
        ensures
            match res {
                Ok(rs) => github_response(*value) == Ok::<Seq<ResultView>, ResponseFailure>(result_views(rs@)),
                Err(e) => github_response(*value) matches Err(f) && error_is(e, f),
            },
    {
        let auth = match value.get("message") {
            Some(m) => match m.as_str() {
                Some(s) => str_eq(s, "Requires authentication"),
                None => false,
            },
            None => false,
        };
        if auth {
            return Err(SearchError::AuthenticationRequired);
        }
        let limit = match value.get("rate_limit_reset") {
            Some(x) => x.as_u64(),
            None => None,
        };
        let limit = match limit {
            Some(n) => Some(n),
            None => match value.get("retry_after") {
                Some(x) => x.as_u64(),
                None => None,
            },
        };
        if let Some(n) = limit {
            return Err(SearchError::RateLimited(n));
        }
        let items = match value.get("items") {
            Some(x) => match x.as_array() {
                Some(items) => items,
                None => {
                    return Err(SearchError::ParseError(String::from_str("missing github items array")));
                },
            },
            None => {
                return Err(SearchError::ParseError(String::from_str("missing github items array")));
            },
        };
        match read_items(items, true) {
            Some(rs) => Ok(rs),
            None => Err(SearchError::ParseError(String::from_str("missing github file path"))),
        }
    }
}

} // verus!
