//! The line-based protocol spoken with the worker processes: which script
//! each worker runs, the request lines without vectors, the reading of reply
//! lines (through serde_json), which handshake answers are accepted, and which
//! replies are errors.
use vstd::prelude::*;
use crate::text::{trim, trimmed};
use crate::search::opt_view;

verus! {

/// The three worker processes.
#[derive(Debug)]
pub enum WorkerKind {
    Embedding,
    Parser,
    Indexer,
}

/// Errors of the exchange with a worker.
#[derive(Debug)]
pub enum WorkerError {
    /// The worker answered with a blank line.
    EmptyResponse,
    /// The worker was asked for something before it was started.
    NotInitialized(WorkerKind),
    /// An embedding reply holds no list of vectors.
    InvalidEmbeddingResponse,
    /// A parse reply holds no text content.
    InvalidParseResponse,
    /// The reply line (given) is not JSON.
    InvalidResponse(String),
}

pub open spec fn script_text(kind: WorkerKind) -> Seq<char> {
    match kind {
        WorkerKind::Embedding => "embedding_worker.py"@,
        WorkerKind::Parser => "parser_worker.py"@,
        WorkerKind::Indexer => "indexer_worker.py"@,
    }
}

/// The `status` answers to the start-up request that mean the worker is ready.
pub open spec fn handshake_ok(kind: WorkerKind, status: Option<Seq<char>>) -> bool {
    match kind {
        WorkerKind::Embedding => status == Some("loaded"@) || status == Some("initialized"@),
        WorkerKind::Parser => true,
        WorkerKind::Indexer => status == Some("initialized"@),
    }
}

pub open spec fn opt_str_text(s: Option<&str>) -> Option<Seq<char>> {
    match s {
        Some(t) => Some(t@),
        None => None,
    }
}

/// Whether two strings hold the same characters.
fn same_text(a: &str, b: &str) -> (r: bool)
    ensures
        r == (a@ == b@),
{
    let x = String::from_str(a);
    let y = String::from_str(b);
    x == y
}

impl WorkerKind {
    /// The Python script the worker runs, in the workers' directory.
    pub fn script_name(&self) -> (s: String)
        ensures
            s@ == script_text(*self),
    {
        match self {
            WorkerKind::Embedding => String::from_str("embedding_worker.py"),
            WorkerKind::Parser => String::from_str("parser_worker.py"),
            WorkerKind::Indexer => String::from_str("indexer_worker.py"),
        }
    }

    /// Whether the worker is sent a start-up request and must answer it.
    /// The parser starts without one.
    pub fn sends_init(&self) -> (b: bool)
        ensures
            b == !(*self is Parser),
    {
        match self {
            WorkerKind::Parser => false,
            _ => true,
        }
    }

    /// Whether the `status` of the answer to the start-up request means the
    /// worker is ready: `loaded` or `initialized` for the embedding worker,
    /// `initialized` for the indexer.
    pub fn handshake_accepts(&self, status: Option<&str>) -> (b: bool)
        ensures
            b == handshake_ok(*self, opt_str_text(status)),
    {
        match self {
            WorkerKind::Parser => true,
            WorkerKind::Embedding => match status {
                Some(s) => same_text(s, "loaded") || same_text(s, "initialized"),
                None => false,
            },
            WorkerKind::Indexer => match status {
                Some(s) => same_text(s, "initialized"),
                None => false,
            },
        }
    }
}

pub open spec fn error_text(e: WorkerError) -> Seq<char> {
    match e {
        WorkerError::EmptyResponse => "Empty response from worker"@,
        WorkerError::NotInitialized(WorkerKind::Embedding) => "Embedding worker not initialized"@,
        WorkerError::NotInitialized(WorkerKind::Parser) => "Parser worker not initialized"@,
        WorkerError::NotInitialized(WorkerKind::Indexer) => "Indexer worker not initialized"@,
        WorkerError::InvalidEmbeddingResponse => "Invalid embedding response"@,
        WorkerError::InvalidParseResponse => "Invalid parse response"@,
        WorkerError::InvalidResponse(line) => "Failed to parse response: "@ + line@,
    }
}

impl WorkerError {
    /// The message of the error.
    pub fn message(&self) -> (m: String)
        ensures
            m@ == error_text(*self),
    {
        match self {
            WorkerError::EmptyResponse => String::from_str("Empty response from worker"),
            WorkerError::NotInitialized(WorkerKind::Embedding) => String::from_str("Embedding worker not initialized"),
            WorkerError::NotInitialized(WorkerKind::Parser) => String::from_str("Parser worker not initialized"),
            WorkerError::NotInitialized(WorkerKind::Indexer) => String::from_str("Indexer worker not initialized"),
            WorkerError::InvalidEmbeddingResponse => String::from_str("Invalid embedding response"),
            WorkerError::InvalidParseResponse => String::from_str("Invalid parse response"),
            WorkerError::InvalidResponse(line) => String::from_str("Failed to parse response: ").concat(
                line.as_str(),
            ),
        }
    }
}

/// A reply line is refused when it holds nothing but white space.
pub fn check_response_line(line: &str) -> (r: Result<(), WorkerError>)
    ensures
        r is Err <==> trimmed(line@).len() == 0,
        r matches Err(e) ==> e is EmptyResponse,
{
    let t = trim(line);
    if t.unicode_len() == 0 {
        Err(WorkerError::EmptyResponse)
    } else {
        Ok(())
    }
}

/// The text content of a parse reply, which must be present.
pub fn parsed_content(content: Option<String>) -> (r: Result<String, WorkerError>)
    ensures
        content matches Some(c) ==> r == Ok::<String, WorkerError>(c),
        content is None ==> (r matches Err(e) && e is InvalidParseResponse),
{
    match content {
        Some(c) => Ok(c),
        None => Err(WorkerError::InvalidParseResponse),
    }
}

/// The worker that answers a request, or the error for one never started.
pub fn require_started<T>(worker: Option<T>, kind: WorkerKind) -> (r: Result<T, WorkerError>)
    ensures
        worker matches Some(w) ==> r == Ok::<T, WorkerError>(w),
        worker is None ==> r == Err::<T, WorkerError>(WorkerError::NotInitialized(kind)),
{
    match worker {
        Some(w) => Ok(w),
        None => Err(WorkerError::NotInitialized(kind)),
    }
}

// Replies. A worker answers each request with one line of JSON. The line is
// parsed by serde_json; what the library reads of it is named below, as a
// function of the line's text.

/// Whether serde_json parses `line` as a JSON value.
pub uninterp spec fn json_parses(line: Seq<char>) -> bool;

/// The string at `key` of the JSON value `line`, when there is one.
pub uninterp spec fn json_text_at(line: Seq<char>, key: Seq<char>) -> Option<Seq<char>>;

/// The unsigned integer at `key` of the JSON value `line`, when there is one.
pub uninterp spec fn json_u64_at(line: Seq<char>, key: Seq<char>) -> Option<u64>;

/// The length of the array at `key` of the JSON value `line` (0 when there is
/// no array there).
pub uninterp spec fn json_array_len(line: Seq<char>, key: Seq<char>) -> usize;

/// The string at `field` of the `i`-th item of the array at `key`.
pub uninterp spec fn json_item_text_at(line: Seq<char>, key: Seq<char>, i: int, field: Seq<char>) -> Option<Seq<char>>;

/// The number at `field` of the `i`-th item of the array at `key`, as the
/// text serde_json writes for it (the shortest text that reads back as the
/// same number).
pub uninterp spec fn json_item_number_text_at(line: Seq<char>, key: Seq<char>, i: int, field: Seq<char>) -> Option<Seq<char>>;

/// Calls `serde_json::from_str::<serde_json::Value>` and tells whether it
/// succeeded. The outcome depends on the text alone.
#[verifier::external_body]
pub(crate) fn parses_as_json(line: &str) -> (b: bool)
    ensures
        b == json_parses(line@),
{
    serde_json::from_str::<serde_json::Value>(line).is_ok()
}

/// Parses `line` with serde_json and reads the string at `key` (`v[key].as_str()`;
/// a missing key or another kind of value gives `None`).
#[verifier::external_body]
pub(crate) fn json_text(line: &str, key: &str) -> (r: Option<String>)
    requires
        json_parses(line@),
    ensures
        opt_view(r) == json_text_at(line@, key@),
{
    match serde_json::from_str::<serde_json::Value>(line) {
        Ok(v) => v[key].as_str().map(str::to_string),
        Err(_) => None,
    }
}

/// Parses `line` with serde_json and reads the unsigned integer at `key`
/// (`v[key].as_u64()`).
#[verifier::external_body]
pub(crate) fn json_u64(line: &str, key: &str) -> (r: Option<u64>)
    requires
        json_parses(line@),
    ensures
        r == json_u64_at(line@, key@),
{
    match serde_json::from_str::<serde_json::Value>(line) {
        Ok(v) => v[key].as_u64(),
        Err(_) => None,
    }
}

/// Parses `line` with serde_json and gives the length of the array at `key`,
/// or 0 when the value there is no array.
#[verifier::external_body]
pub(crate) fn json_array_length(line: &str, key: &str) -> (n: usize)
    requires
        json_parses(line@),
    ensures
        n == json_array_len(line@, key@),
{
    match serde_json::from_str::<serde_json::Value>(line) {
        Ok(v) => v[key].as_array().map_or(0, Vec::len),
        Err(_) => 0,
    }
}

/// Parses `line` with serde_json and reads the string at `field` of the `i`-th
/// item of the array at `key` (`v[key][i][field].as_str()`).
#[verifier::external_body]
pub(crate) fn json_item_text(line: &str, key: &str, i: usize, field: &str) -> (r: Option<String>)
    requires
        json_parses(line@),
    ensures
        opt_view(r) == json_item_text_at(line@, key@, i as int, field@),
{
    match serde_json::from_str::<serde_json::Value>(line) {
        Ok(v) => v[key][i][field].as_str().map(str::to_string),
        Err(_) => None,
    }
}

/// Parses `line` with serde_json and writes out the number at `field` of the
/// `i`-th item of the array at `key` (`as_number()`, then its `Display`).
#[verifier::external_body]
pub(crate) fn json_item_number_text(line: &str, key: &str, i: usize, field: &str) -> (r: Option<String>)
    requires
        json_parses(line@),
    ensures
        opt_view(r) == json_item_number_text_at(line@, key@, i as int, field@),
{
    match serde_json::from_str::<serde_json::Value>(line) {
        Ok(v) => v[key][i][field].as_number().map(ToString::to_string),
        Err(_) => None,
    }
}

/// What the library reads of a worker's reply: the `status` and `content`
/// strings, the `indexed_files` count, and for each item of `results` its
/// `path` and its `score` written out as a number.
pub struct WorkerReply {
    pub status: Option<String>,
    pub content: Option<String>,
    pub indexed_files: Option<u64>,
    pub hits: Vec<(Option<String>, Option<String>)>,
}

pub struct WorkerReplyView {
    pub status: Option<Seq<char>>,
    pub content: Option<Seq<char>>,
    pub indexed_files: Option<u64>,
    pub hits: Seq<(Option<Seq<char>>, Option<Seq<char>>)>,
}

pub open spec fn hit_view(h: (Option<String>, Option<String>)) -> (Option<Seq<char>>, Option<Seq<char>>) {
    (opt_view(h.0), opt_view(h.1))
}

impl View for WorkerReply {
    type V = WorkerReplyView;

    open spec fn view(&self) -> WorkerReplyView {
        WorkerReplyView {
            status: opt_view(self.status),
            content: opt_view(self.content),
            indexed_files: self.indexed_files,
            hits: self.hits@.map_values(|h: (Option<String>, Option<String>)| hit_view(h)),
        }
    }
}

/// The `i`-th hit of a reply line.
pub open spec fn reply_hit(line: Seq<char>, i: int) -> (Option<Seq<char>>, Option<Seq<char>>) {
    (json_item_text_at(line, "results"@, i, "path"@), json_item_number_text_at(line, "results"@, i, "score"@))
}

/// What the library reads of the JSON reply `line`.
pub open spec fn reply_of(line: Seq<char>) -> WorkerReplyView {
    WorkerReplyView {
        status: json_text_at(line, "status"@),
        content: json_text_at(line, "content"@),
        indexed_files: json_u64_at(line, "indexed_files"@),
        hits: Seq::new(json_array_len(line, "results"@) as nat, |i: int| reply_hit(line, i)),
    }
}

/// Every item of a reply's `results` array becomes one hit, in the array's
/// order and with none left out: the reply holds as many hits as the array has
/// items, hit `k` is the `path` and `score` of item `k`, and the `status`,
/// `content` and `indexed_files` fields are those of the line.
pub proof fn lemma_reply_reads_every_item(line: Seq<char>)
    ensures
        reply_of(line).hits.len() == json_array_len(line, "results"@),
        forall|k: int|
            0 <= k < json_array_len(line, "results"@) ==> (#[trigger] reply_of(line).hits[k]).0
                == json_item_text_at(line, "results"@, k, "path"@) && reply_of(line).hits[k].1
                == json_item_number_text_at(line, "results"@, k, "score"@),
        reply_of(line).status == json_text_at(line, "status"@),
        reply_of(line).content == json_text_at(line, "content"@),
        reply_of(line).indexed_files == json_u64_at(line, "indexed_files"@),
{
}

/// Reads a worker's reply line: a blank line is refused, a line that is not
/// JSON is refused with the line itself, and otherwise the fields the library
/// uses are read from it.
pub fn read_reply(line: &str) -> (r: Result<WorkerReply, WorkerError>)
    ensures
        trimmed(line@).len() == 0 ==> (r matches Err(e) && e is EmptyResponse),
        trimmed(line@).len() > 0 ==> (r is Ok <==> json_parses(line@)),
        trimmed(line@).len() > 0 && !json_parses(line@) ==> (r matches Err(e)
            && e matches WorkerError::InvalidResponse(t) && t@ == line@),
        r matches Ok(x) ==> x@ == reply_of(line@),
        r matches Ok(x) ==> x.hits@.len() == json_array_len(line@, "results"@),
        r matches Ok(x) ==> forall|k: int| 0 <= k < json_array_len(line@, "results"@) ==> hit_view(
            #[trigger] x.hits@[k],
        ) == (json_item_text_at(line@, "results"@, k, "path"@), json_item_number_text_at(
            line@,
            "results"@,
            k,
            "score"@,
        )),
{
    check_response_line(line)?;
    if !parses_as_json(line) {
        return Err(WorkerError::InvalidResponse(String::from_str(line)));
    }
    let status = json_text(line, "status");
    let content = json_text(line, "content");
    let indexed_files = json_u64(line, "indexed_files");
    let n = json_array_length(line, "results");
    let mut hits: Vec<(Option<String>, Option<String>)> = Vec::new();
    let mut i: usize = 0;
    while i < n
        invariant
            json_parses(line@),
            n == json_array_len(line@, "results"@),
            i <= n,
            hits@.len() == i,
            forall|k: int| 0 <= k < i ==> hit_view(#[trigger] hits@[k]) == reply_hit(line@, k),
        decreases n - i,
    {
        let path = json_item_text(line, "results", i, "path");
        let score = json_item_number_text(line, "results", i, "score");
        hits.push((path, score));
        i = i + 1;
    }
    let reply = WorkerReply { status, content, indexed_files, hits };
    assert(reply@.hits =~= reply_of(line@).hits);
    Ok(reply)
}

// Requests. Each request is one line holding a JSON object whose keys come in
// alphabetical order, with no spaces, as serde_json writes an object.

/// `s` as a JSON string: quoted, with the characters JSON requires escaped, as
/// serde_json writes it.
pub uninterp spec fn json_quoted(s: Seq<char>) -> Seq<char>;

/// Calls `serde_json::to_string` on a string slice. Writing a string into
/// memory cannot fail, so the error arm is never taken.
#[verifier::external_body]
pub(crate) fn json_string(s: &str) -> (r: String)
    ensures
        r@ == json_quoted(s@),
{
    serde_json::to_string(s).unwrap_or_default()
}

/// `{"action":"init","model_path":<model_dir>}`: the embedding worker's
/// start-up request.
pub open spec fn embedding_init_text(model_dir: Seq<char>) -> Seq<char> {
    "{\"action\":\"init\",\"model_path\":"@ + json_quoted(model_dir) + "}"@
}

/// `{"action":"init","index_dir":<index_dir>}`: the indexer's start-up request.
pub open spec fn indexer_init_text(index_dir: Seq<char>) -> Seq<char> {
    "{\"action\":\"init\",\"index_dir\":"@ + json_quoted(index_dir) + "}"@
}

/// `{"action":"parse","file_path":<file_path>}`: the parser's request.
pub open spec fn parse_request_text(file_path: Seq<char>) -> Seq<char> {
    "{\"action\":\"parse\",\"file_path\":"@ + json_quoted(file_path) + "}"@
}

/// `{"action":<action>}`: a request with no other field.
pub open spec fn action_request_text(action: Seq<char>) -> Seq<char> {
    "{\"action\":"@ + json_quoted(action) + "}"@
}

/// The quoted texts separated by commas.
pub open spec fn quoted_list(texts: Seq<Seq<char>>) -> Seq<char>
    decreases texts.len(),
{
    if texts.len() == 0 {
        Seq::empty()
    } else if texts.len() == 1 {
        json_quoted(texts[0])
    } else {
        quoted_list(texts.drop_last()) + ","@ + json_quoted(texts.last())
    }
}

/// Every text goes into the list, in order, none dropped: no texts give an
/// empty list, and a text added at the end adds its quoted form at the end,
/// after a comma unless it is the first.
pub proof fn lemma_quoted_list_step(texts: Seq<Seq<char>>, t: Seq<char>)
    ensures
        quoted_list(Seq::empty()) == Seq::<char>::empty(),
        texts.len() == 0 ==> quoted_list(texts.push(t)) == json_quoted(t),
        texts.len() > 0 ==> quoted_list(texts.push(t)) == quoted_list(texts) + ","@ + json_quoted(t),
{
    assert(texts.push(t).drop_last() =~= texts);
    assert(texts.push(t).last() == t);
    if texts.len() == 0 {
        assert(texts.push(t)[0] == t);
    }
}

/// `{"action":"encode","is_query":<is_query>,"texts":[<texts>]}`: the
/// embedding worker's request.
pub open spec fn encode_request_text(texts: Seq<Seq<char>>, is_query: bool) -> Seq<char> {
    "{\"action\":\"encode\",\"is_query\":"@ + (if is_query { "true"@ } else { "false"@ }) + ",\"texts\":["@
        + quoted_list(texts) + "]}"@
}

/// The embedding worker's start-up request.
pub fn embedding_init_request(model_dir: &str) -> (r: String)
    ensures
        r@ == embedding_init_text(model_dir@),
{
    let q = json_string(model_dir);
    String::from_str("{\"action\":\"init\",\"model_path\":").concat(q.as_str()).concat("}")
}

/// The indexer's start-up request.
pub fn indexer_init_request(index_dir: &str) -> (r: String)
    ensures
        r@ == indexer_init_text(index_dir@),
{
    let q = json_string(index_dir);
    String::from_str("{\"action\":\"init\",\"index_dir\":").concat(q.as_str()).concat("}")
}

/// The request to parse a file.
pub fn parse_request(file_path: &str) -> (r: String)
    ensures
        r@ == parse_request_text(file_path@),
{
    let q = json_string(file_path);
    String::from_str("{\"action\":\"parse\",\"file_path\":").concat(q.as_str()).concat("}")
}

/// A request that names only its action (`stats`, `save`, `reset`, `quit`).
pub fn action_request(action: &str) -> (r: String)
    ensures
        r@ == action_request_text(action@),
{
    let q = json_string(action);
    String::from_str("{\"action\":").concat(q.as_str()).concat("}")
}

/// The request to embed `texts`, as a query or as documents.
pub fn encode_request(texts: &Vec<String>, is_query: bool) -> (r: String)
    ensures
        r@ == encode_request_text(texts.deep_view(), is_query),
{
    let ghost tv = texts.deep_view();
    let mut list = String::new();
    let mut i: usize = 0;
    while i < texts.len()
        invariant
            tv == texts.deep_view(),
            tv.len() == texts.len(),
            i <= texts.len(),
            list@ == quoted_list(tv.take(i as int)),
        decreases texts.len() - i,
    {
        let q = json_string(texts[i].as_str());
        let ghost before = list@;
        if i > 0 {
            list.append(",");
        }
        list.append(q.as_str());
        proof {
            let t = tv.take(i + 1);
            assert(t.drop_last() =~= tv.take(i as int));
            assert(t.last() == texts[i as int]@);
            if i == 0 {
                assert(t.len() == 1 && t[0] == texts[0]@);
                assert(before =~= Seq::<char>::empty());
                assert(list@ =~= json_quoted(t[0]));
            } else {
                assert(list@ =~= before + ","@ + json_quoted(t.last()));
            }
        }
        i = i + 1;
    }
    assert(tv.take(texts.len() as int) =~= tv);
    let flag = if is_query { "true" } else { "false" };
    String::from_str("{\"action\":\"encode\",\"is_query\":").concat(flag).concat(",\"texts\":[").concat(
        list.as_str(),
    ).concat("]}")
}

} // verus!
