//! Serving files.

use vstd::prelude::*;
use crate::data::Data;
use crate::encoding;
use crate::encoding::percent_decode;
use crate::hoops::rewrite;
use crate::hoops::rewrite::join_path;
use crate::http_date;
use crate::http_date::{format_http_date, generate_etag, parse_http_date, parse_range};
use crate::message;
use crate::message::{Fields, Headers, Response, ResponseView};
use crate::mime_guess;
use crate::mime_guess::mime_from_path;
use crate::text;
use crate::time::SystemTime;

verus! {

/// The plain values of a [`FileServerGoal`].
#[verifier::ext_equal]
pub struct FileServerView {
    pub root: Seq<char>,
    pub browse: bool,
    pub trailing_slash: bool,
    pub index: Seq<Seq<char>>,
}

/// Serves the files of a directory.
///
/// - The content type follows from the name of a file.
/// - A client that has a file already, by its tag or its date, is told so.
/// - Parts of files can be asked for.
/// - A directory is answered with one of its index files, with a list of its files
///   or not at all.
/// - A path never leads out of the directory.
pub struct FileServerGoal {
    pub root: String,
    pub browse: bool,
    pub trailing_slash: bool,
    pub index: Vec<String>,
}

impl DeepView for FileServerGoal {
    type V = FileServerView;

    open spec fn deep_view(&self) -> FileServerView {
        FileServerView {
            root: self.root@,
            browse: self.browse,
            trailing_slash: self.trailing_slash,
            index: self.index.deep_view(),
        }
    }
}

/// The path below the directory that a request asks for.
pub open spec fn relative_path(request_path: Seq<char>) -> Seq<char> {
    text::replaced(
        text::trimmed_start(encoding::percent_decoded(request_path), text::only('/')),
        "\\"@,
        "/"@,
    )
}

/// The file that a request asks for; none where its path holds `..`.
pub open spec fn resolved_path(root: Seq<char>, request_path: Seq<char>) -> Option<Seq<char>> {
    let rel = relative_path(request_path);
    if text::pieces(rel, '/').contains(".."@) {
        None
    } else {
        Some(rewrite::under(root, rel))
    }
}

// ---------------------------------------------------------------------------
// Which file
// ---------------------------------------------------------------------------

/// What is done with a request.
#[derive(Debug)]
pub enum ServeStep {
    /// It is answered at once.
    Answer(Response),
    /// It is answered with a list of the files of the directory.
    List,
    /// It is answered with the file at the path, if there is one.
    File(String),
}

/// The plain values of a [`ServeStep`].
#[verifier::ext_equal]
pub enum ServeStepView {
    Answer(ResponseView),
    List,
    File(Seq<char>),
}

impl DeepView for ServeStep {
    type V = ServeStepView;

    open spec fn deep_view(&self) -> ServeStepView {
        match self {
            ServeStep::Answer(r) => ServeStepView::Answer(r.deep_view()),
            ServeStep::List => ServeStepView::List,
            ServeStep::File(p) => ServeStepView::File(p@),
        }
    }
}

/// The answer that leads to the path with a slash behind it.
pub open spec fn slash_redirect(request_path: Seq<char>) -> ResponseView {
    ResponseView {
        status: 301,
        headers: seq![("location"@, vstd::utf8::encode_utf8(request_path + "/"@))],
        body: seq![],
    }
}

/// The request is sent to the path with a slash behind it.
pub open spec fn redirects(
    g: FileServerView,
    request_path: Seq<char>,
    is_dir: bool,
    has_index: bool,
) -> bool {
    resolved_path(g.root, request_path) is Some && is_dir && g.trailing_slash && !text::ends(
        request_path,
        "/"@,
    ) && (has_index || g.browse)
}

/// What is done with a request, given whether the file it asks for is a directory
/// and which of the index files is the first that the directory has.
pub open spec fn serve_step(
    g: FileServerView,
    request_path: Seq<char>,
    is_dir: bool,
    first_index: Option<int>,
) -> ServeStepView {
    match resolved_path(g.root, request_path) {
        None => ServeStepView::Answer(message::plain_response(403, "Forbidden"@)),
        Some(path) => if !is_dir {
            ServeStepView::File(path)
        } else if redirects(g, request_path, is_dir, first_index is Some) {
            ServeStepView::Answer(slash_redirect(request_path))
        } else {
            match first_index {
                Some(i) => ServeStepView::File(rewrite::under(path, g.index[i])),
                None => if g.browse {
                    ServeStepView::List
                } else {
                    ServeStepView::Answer(message::plain_response(404, "Not Found"@))
                },
            }
        },
    }
}

// ---------------------------------------------------------------------------
// What of the file
// ---------------------------------------------------------------------------

/// What is known of a file.
#[derive(Clone, Copy, Debug, PartialEq, Eq, Structural)]
pub struct FileInfo {
    pub size: u64,
    pub modified: Option<SystemTime>,
}

/// What of a file is sent.
#[derive(Debug)]
pub enum FileStep {
    /// Nothing but the answer.
    Answer(Response),
    /// One of its compressed forms, if there is one, or all of it.
    Whole,
    /// The bytes from the first to the last.
    Part(u64, u64),
}

/// The plain values of a [`FileStep`].
#[verifier::ext_equal]
pub enum FileStepView {
    Answer(ResponseView),
    Whole,
    Part(u64, u64),
}

impl DeepView for FileStep {
    type V = FileStepView;

    open spec fn deep_view(&self) -> FileStepView {
        match self {
            FileStep::Answer(r) => FileStepView::Answer(r.deep_view()),
            FileStep::Whole => FileStepView::Whole,
            FileStep::Part(a, b) => FileStepView::Part(*a, *b),
        }
    }
}

/// The tag of a file.
pub open spec fn tag_of(f: FileInfo) -> Seq<char> {
    http_date::etag(f.size, f.modified)
}

/// Tells whether the client has the file already.
pub open spec fn not_modified(req: Fields, f: FileInfo) -> bool {
    ||| match message::field_of(req, "if-none-match"@) {
        Some(t) => text::trimmed_of(t, '"') == text::trimmed_of(tag_of(f), '"'),
        None => false,
    }
    ||| match (message::field_of(req, "if-modified-since"@), f.modified) {
        (Some(t), Some(m)) => match http_date::http_date(t) {
            Some(secs) => m.up_to(SystemTime { secs, nanos: 0 }),
            None => false,
        },
        _ => false,
    }
}

/// A field with a text.
pub open spec fn field(name: Seq<char>, value: Seq<char>) -> (Seq<char>, Seq<u8>) {
    (name, vstd::utf8::encode_utf8(value))
}

/// What of a file is sent: nothing where the client has it already, a part where
/// one is asked for that there is, and otherwise all of it.
pub open spec fn file_step(req: Fields, f: FileInfo) -> FileStepView {
    if not_modified(req, f) {
        FileStepView::Answer(
            ResponseView { status: 304, headers: seq![field("etag"@, tag_of(f))], body: seq![] },
        )
    } else {
        match message::field_of(req, "range"@) {
            Some(r) => match http_date::byte_range(r, f.size) {
                Some((a, b)) => FileStepView::Part(a, b),
                None => FileStepView::Answer(
                    ResponseView {
                        status: 416,
                        headers: seq![
                            field("content-range"@, "bytes */"@ + text::decimal(f.size as nat)),
                        ],
                        body: seq![],
                    },
                ),
            },
            None => FileStepView::Whole,
        }
    }
}

/// The compressed forms of a file that a client takes, in the order of preference:
/// the name of the encoding and the path.
pub open spec fn compressed_forms(req: Fields, path: Seq<char>) -> Seq<(Seq<char>, Seq<char>)> {
    let accepted = message::field_or(req, "accept-encoding"@, ""@);
    if message::value_of(req, "range"@) is Some {
        seq![]
    } else {
        form(accepted, path, "br"@, ".br"@) + form(accepted, path, "zstd"@, ".zst"@) + form(
            accepted,
            path,
            "gzip"@,
            ".gz"@,
        )
    }
}

/// One compressed form, where a client takes it.
pub open spec fn form(
    accepted: Seq<char>,
    path: Seq<char>,
    name: Seq<char>,
    ext: Seq<char>,
) -> Seq<(Seq<char>, Seq<char>)> {
    if text::contains(accepted, name) || accepted.contains('*') {
        seq![(name, path + ext)]
    } else {
        seq![]
    }
}

/// The fields of an answer that a file's last change gives.
pub open spec fn last_modified(f: FileInfo) -> Fields {
    match f.modified {
        Some(t) => seq![
            field("last-modified"@, http_date::date_text(http_date::date_at(t.secs))),
        ],
        None => seq![],
    }
}

/// The answer with all of a file.
pub open spec fn whole_response(path: Seq<char>, f: FileInfo, contents: Seq<u8>) -> ResponseView {
    ResponseView {
        status: 200,
        headers: seq![
            field("content-type"@, mime_guess::type_of_path(path)),
            field("content-length"@, text::decimal(f.size as nat)),
            field("accept-ranges"@, "bytes"@),
            field("etag"@, tag_of(f)),
        ] + last_modified(f),
        body: contents,
    }
}

/// The answer with a compressed form of a file.
pub open spec fn compressed_response(
    path: Seq<char>,
    f: FileInfo,
    encoding: Seq<char>,
    size: u64,
    contents: Seq<u8>,
) -> ResponseView {
    ResponseView {
        status: 200,
        headers: seq![
            field("content-type"@, mime_guess::type_of_path(path)),
            field("content-length"@, text::decimal(size as nat)),
            field("content-encoding"@, encoding),
            field("vary"@, "Accept-Encoding"@),
            field("accept-ranges"@, "bytes"@),
            field("etag"@, tag_of(f)),
        ] + last_modified(f),
        body: contents,
    }
}

/// The answer with a part of a file.
pub open spec fn part_response(
    path: Seq<char>,
    f: FileInfo,
    a: u64,
    b: u64,
    contents: Seq<u8>,
) -> ResponseView {
    ResponseView {
        status: 206,
        headers: seq![
            field("content-type"@, mime_guess::type_of_path(path)),
            field("content-length"@, text::decimal((b - a + 1) as nat)),
            field(
                "content-range"@,
                "bytes "@ + text::decimal(a as nat) + "-"@ + text::decimal(b as nat) + "/"@
                    + text::decimal(f.size as nat),
            ),
            field("accept-ranges"@, "bytes"@),
            field("etag"@, tag_of(f)),
        ] + last_modified(f),
        body: contents,
    }
}

/// The answer with a list of files.
pub open spec fn list_response(html: Seq<char>) -> ResponseView {
    let body = vstd::utf8::encode_utf8(html);
    ResponseView {
        status: 200,
        headers: seq![
            field("content-type"@, "text/html; charset=utf-8"@),
            field("content-length"@, text::decimal(body.len())),
        ],
        body,
    }
}

/// Appends a field with a text. The name is in small letters.
fn put(h: &mut Headers, name: &str, value: &str)
    requires
        text::lowered(name@) == name@,
    ensures
        final(h).deep_view() == old(h).deep_view().push(field(name@, value@)),
{
    h.append(name, message::utf8(value));
}

/// Texts in small letters are that already.
proof fn lemma_small(s: Seq<char>)
    requires
        forall|i: int| 0 <= i < s.len() ==> !('A' <= #[trigger] s[i] <= 'Z'),
    ensures
        text::lowered(s) == s,
{
    assert(text::lowered(s) =~= s);
}

impl FileServerGoal {
    /// Serves the files of a directory. Where no index file is named it is
    /// `index.html`.
    pub fn new(root: String, browse: bool, trailing_slash: bool, index: Vec<String>) -> (g:
        FileServerGoal)
        ensures
            g.deep_view() == (FileServerView {
                root: root@,
                browse,
                trailing_slash,
                index: if index.deep_view().len() == 0 {
                    seq!["index.html"@]
                } else {
                    index.deep_view()
                },
            }),
    {
        let mut index = index;
        if index.len() == 0 {
            index.push("index.html".to_owned());
            assert(index.deep_view() =~= seq!["index.html"@]);
        }
        FileServerGoal { root, browse, trailing_slash, index }
    }

    /// The file that a request asks for; none where its path would lead out of the
    /// directory.
    pub fn resolve_path(&self, request_path: &str) -> (r: Option<String>)
        ensures
            r.deep_view() == resolved_path(self.root@, request_path@),
    {
        let decoded = percent_decode(request_path);
        let rel = text::replace(text::trim_start_char(decoded.as_str(), '/').as_str(), "\\", "/");
        let parts = text::split(rel.as_str(), '/');
        let ghost ps = parts.deep_view();
        for i in 0..parts.len()
            invariant
                ps == parts.deep_view(),
                ps == text::pieces(relative_path(request_path@), '/'),
                forall|k: int| 0 <= k < i ==> ps[k] != ".."@,
        {
            assert(ps[i as int] == parts@[i as int]@);
            if text::same(parts[i].as_str(), "..") {
                assert(ps.contains(".."@));
                return None;
            }
        }
        Some(join_path(self.root.as_str(), rel.as_str()))
    }

    /// The paths of the index files of a directory.
    pub fn index_paths(&self, dir: &str) -> (r: Vec<String>)
        ensures
            r.deep_view() == Seq::new(
                self.index.deep_view().len(),
                |i: int| rewrite::under(dir@, self.index.deep_view()[i]),
            ),
    {
        let mut out: Vec<String> = Vec::new();
        for i in 0..self.index.len()
            invariant
                out@.len() == i,
                forall|k: int|
                    0 <= k < i ==> (#[trigger] out@[k])@ == rewrite::under(
                        dir@,
                        self.index.deep_view()[k],
                    ),
        {
            assert(self.index.deep_view()[i as int] == self.index@[i as int]@);
            out.push(join_path(dir, self.index[i].as_str()));
        }
        assert(out.deep_view() =~= Seq::new(
            self.index.deep_view().len(),
            |i: int| rewrite::under(dir@, self.index.deep_view()[i]),
        ));
        out
    }

    /// Decides what is done with a request, given whether the file it asks for is a
    /// directory and which of the index files is the first that the directory has.
    pub fn serve(&self, request_path: &str, is_dir: bool, first_index: Option<usize>) -> (r:
        ServeStep)
        requires
            first_index matches Some(i) ==> i < self.index@.len(),
            redirects(
                self.deep_view(),
                request_path@,
                is_dir,
                first_index is Some,
            ) ==> message::is_field_value(request_path@),
        ensures
            r.deep_view() == serve_step(
                self.deep_view(),
                request_path@,
                is_dir,
                match first_index {
                    Some(i) => Some(i as int),
                    None => None,
                },
            ),
    {
        let path = match self.resolve_path(request_path) {
            Some(p) => p,
            None => return ServeStep::Answer(Response::plain(403, "Forbidden")),
        };
        if !is_dir {
            return ServeStep::File(path);
        }
        if self.trailing_slash && !text::ends_with(request_path, "/") && (first_index.is_some()
            || self.browse) {
            let mut headers = Headers::new();
            proof {
                reveal_strlit("location");
                lemma_small("location"@);
            }
            put(&mut headers, "location", text::join(request_path, "/").as_str());
            let body: Vec<u8> = Vec::new();
            let r = Response { status: 301, headers, body };
            assert(r.deep_view() =~= slash_redirect(request_path@));
            return ServeStep::Answer(r);
        }
        match first_index {
            Some(i) => {
                assert(self.index.deep_view()[i as int] == self.index@[i as int]@);
                ServeStep::File(join_path(path.as_str(), self.index[i].as_str()))
            },
            None => if self.browse {
                ServeStep::List
            } else {
                ServeStep::Answer(Response::plain(404, "Not Found"))
            },
        }
    }
}

/// Decides what of a file is sent.
pub fn plan_file(headers: &Headers, f: FileInfo) -> (r: FileStep)
    ensures
        r.deep_view() == file_step(headers.deep_view(), f),
        r matches FileStep::Part(a, b) ==> a <= b < f.size,
{
    let tag = generate_etag(f.size, f.modified);
    let mut same = match headers.text("if-none-match") {
        Some(t) => text::same(
            text::trim_char(t.as_str(), '"').as_str(),
            text::trim_char(tag.as_str(), '"').as_str(),
        ),
        None => false,
    };
    if !same {
        if let Some(t) = headers.text("if-modified-since") {
            if let Some(m) = f.modified {
                if let Some(since) = parse_http_date(t.as_str()) {
                    same = m.is_up_to(since);
                }
            }
        }
    }
    let body: Vec<u8> = Vec::new();
    assert(body@ =~= seq![]);
    if same {
        let mut h = Headers::new();
        proof {
            reveal_strlit("etag");
            lemma_small("etag"@);
        }
        put(&mut h, "etag", tag.as_str());
        assert(h.deep_view() =~= seq![field("etag"@, tag_of(f))]);
        return FileStep::Answer(Response { status: 304, headers: h, body });
    }
    match headers.text("range") {
        Some(r) => match parse_range(r.as_str(), f.size) {
            Some((a, b)) => FileStep::Part(a, b),
            None => {
                let mut h = Headers::new();
                proof {
                    reveal_strlit("content-range");
                    lemma_small("content-range"@);
                }
                put(
                    &mut h,
                    "content-range",
                    text::join("bytes */", text::number_text(f.size as u128).as_str()).as_str(),
                );
                assert(h.deep_view() =~= seq![
                    field("content-range"@, "bytes */"@ + text::decimal(f.size as nat)),
                ]);
                FileStep::Answer(Response { status: 416, headers: h, body })
            },
        },
        None => FileStep::Whole,
    }
}

/// Adds a compressed form, where a client takes it.
fn add_form(out: &mut Vec<(String, String)>, accepted: &str, path: &str, name: &str, ext: &str)
    ensures
        final(out).deep_view() == old(out).deep_view() + form(accepted@, path@, name@, ext@),
{
    let ghost before = out.deep_view();
    if text::has(accepted, name) || text::has_char(accepted, '*') {
        out.push((name.to_owned(), text::join(path, ext)));
        assert(out.deep_view() =~= before + seq![(name@, path@ + ext@)]);
    } else {
        assert(before + Seq::<(Seq<char>, Seq<char>)>::empty() =~= before);
    }
}

/// The compressed forms of a file that a client takes, in the order of preference.
pub fn compressed_candidates(headers: &Headers, path: &str) -> (r: Vec<(String, String)>)
    ensures
        r.deep_view() == compressed_forms(headers.deep_view(), path@),
{
    let mut out: Vec<(String, String)> = Vec::new();
    assert(out.deep_view() =~= seq![]);
    if headers.contains_key("range") {
        return out;
    }
    let accepted = headers.text_or("accept-encoding", "");
    let ghost a = accepted@;
    add_form(&mut out, accepted.as_str(), path, "br", ".br");
    assert(out.deep_view() =~= form(a, path@, "br"@, ".br"@));
    add_form(&mut out, accepted.as_str(), path, "zstd", ".zst");
    add_form(&mut out, accepted.as_str(), path, "gzip", ".gz");
    out
}

/// Appends the date of a file's last change.
fn put_last_modified(h: &mut Headers, f: FileInfo)
    ensures
        final(h).deep_view() == old(h).deep_view() + last_modified(f),
{
    let ghost before = h.deep_view();
    match f.modified {
        Some(t) => {
            proof {
                reveal_strlit("last-modified");
                lemma_small("last-modified"@);
            }
            put(h, "last-modified", format_http_date(t).as_str());
            assert(h.deep_view() =~= before + last_modified(f));
        },
        None => {
            assert(before + last_modified(f) =~= before);
        },
    }
}

/// The names of the fields of an answer are in small letters.
proof fn lemma_names()
    ensures
        text::lowered("content-type"@) == "content-type"@,
        text::lowered("content-length"@) == "content-length"@,
        text::lowered("content-encoding"@) == "content-encoding"@,
        text::lowered("content-range"@) == "content-range"@,
        text::lowered("vary"@) == "vary"@,
        text::lowered("accept-ranges"@) == "accept-ranges"@,
        text::lowered("etag"@) == "etag"@,
{
    reveal_strlit("content-type");
    reveal_strlit("content-length");
    reveal_strlit("content-encoding");
    reveal_strlit("content-range");
    reveal_strlit("vary");
    reveal_strlit("accept-ranges");
    reveal_strlit("etag");
    lemma_small("content-type"@);
    lemma_small("content-length"@);
    lemma_small("content-encoding"@);
    lemma_small("content-range"@);
    lemma_small("vary"@);
    lemma_small("accept-ranges"@);
    lemma_small("etag"@);
}

/// Answers with all of a file.
pub fn answer_whole(path: &str, f: FileInfo, contents: Vec<u8>) -> (r: Response)
    ensures
        r.deep_view() == whole_response(path@, f, contents@),
{
    proof {
        lemma_names();
    }
    let mut h = Headers::new();
    put(&mut h, "content-type", mime_from_path(path));
    put(&mut h, "content-length", text::number_text(f.size as u128).as_str());
    put(&mut h, "accept-ranges", "bytes");
    put(&mut h, "etag", generate_etag(f.size, f.modified).as_str());
    put_last_modified(&mut h, f);
    assert(h.deep_view() =~= whole_response(path@, f, contents@).headers);
    Response { status: 200, headers: h, body: contents }
}

/// Answers with a compressed form of a file.
pub fn answer_compressed(path: &str, f: FileInfo, encoding: &str, size: u64, contents: Vec<u8>)
    -> (r: Response)
    ensures
        r.deep_view() == compressed_response(path@, f, encoding@, size, contents@),
{
    proof {
        lemma_names();
    }
    let mut h = Headers::new();
    put(&mut h, "content-type", mime_from_path(path));
    put(&mut h, "content-length", text::number_text(size as u128).as_str());
    put(&mut h, "content-encoding", encoding);
    put(&mut h, "vary", "Accept-Encoding");
    put(&mut h, "accept-ranges", "bytes");
    put(&mut h, "etag", generate_etag(f.size, f.modified).as_str());
    put_last_modified(&mut h, f);
    assert(h.deep_view() =~= compressed_response(path@, f, encoding@, size, contents@).headers);
    Response { status: 200, headers: h, body: contents }
}

/// Answers with a part of a file.
pub fn answer_part(path: &str, f: FileInfo, a: u64, b: u64, contents: Vec<u8>) -> (r: Response)
    requires
        a <= b,
    ensures
        r.deep_view() == part_response(path@, f, a, b, contents@),
{
    proof {
        lemma_names();
    }
    let length: u128 = (b - a) as u128 + 1;
    let from = text::join3("bytes ", text::number_text(a as u128).as_str(), "-");
    let to = text::join3(from.as_str(), text::number_text(b as u128).as_str(), "/");
    let range = text::join(to.as_str(), text::number_text(f.size as u128).as_str());
    let mut h = Headers::new();
    put(&mut h, "content-type", mime_from_path(path));
    put(&mut h, "content-length", text::number_text(length).as_str());
    put(&mut h, "content-range", range.as_str());
    put(&mut h, "accept-ranges", "bytes");
    put(&mut h, "etag", generate_etag(f.size, f.modified).as_str());
    put_last_modified(&mut h, f);
    assert(h.deep_view() =~= part_response(path@, f, a, b, contents@).headers);
    Response { status: 206, headers: h, body: contents }
}

/// Answers with a list of files.
pub fn answer_list(html: &str) -> (r: Response)
    ensures
        r.deep_view() == list_response(html@),
{
    proof {
        lemma_names();
    }
    let body = message::utf8(html);
    let mut h = Headers::new();
    put(&mut h, "content-type", "text/html; charset=utf-8");
    put(&mut h, "content-length", text::number_text(body.len() as u128).as_str());
    assert(h.deep_view() =~= list_response(html@).headers);
    Response { status: 200, headers: h, body }
}

// ---------------------------------------------------------------------------
// What holds of every request
// ---------------------------------------------------------------------------

/// A file that is served lies below the directory: its path begins with the path of
/// the directory, and no part of the rest is `..`.
pub proof fn lemma_path_confined(root: Seq<char>, request_path: Seq<char>)
    ensures
        resolved_path(root, request_path) matches Some(p) ==> text::begins(p, root)
            && !text::pieces(relative_path(request_path), '/').contains(".."@) && text::ends(
            p,
            relative_path(request_path),
        ),
{
    if let Some(p) = resolved_path(root, request_path) {
        let rel = relative_path(request_path);
        reveal_strlit("/");
        assert(p.subrange(0, root.len() as int) =~= root);
        let n = p.len() - rel.len();
        assert(p.subrange(n, n + rel.len()) =~= rel);
    }
}

/// A path that holds `..` is answered with 403, whatever the file system holds.
pub proof fn lemma_traversal_refused(
    g: FileServerView,
    request_path: Seq<char>,
    is_dir: bool,
    first_index: Option<int>,
)
    requires
        text::pieces(relative_path(request_path), '/').contains(".."@),
    ensures
        serve_step(g, request_path, is_dir, first_index) == ServeStepView::Answer(
            message::plain_response(403, "Forbidden"@),
        ),
{
}

/// A client that sends back the tag of a file is not sent the file again.
pub proof fn lemma_tag_saves_transfer(req: Fields, f: FileInfo)
    requires
        message::field_of(req, "if-none-match"@) == Some(tag_of(f)),
    ensures
        file_step(req, f) matches FileStepView::Answer(r) && r.status == 304 && r.body.len() == 0,
{
}

/// A client that sends back the date of a file's last change, where that lies on a
/// whole second, is not sent the file again.
pub proof fn lemma_date_saves_transfer(req: Fields, f: FileInfo, secs: u64)
    requires
        f.modified == Some(SystemTime { secs, nanos: 0 }),
        message::field_of(req, "if-modified-since"@) == Some(
            http_date::date_text(http_date::date_at(secs)),
        ),
    ensures
        file_step(req, f) matches FileStepView::Answer(r) && r.status == 304 && r.body.len() == 0,
{
    http_date::lemma_http_date_round_trip(secs);
}

/// A file that was changed after the date that the client sends back is sent, whole or
/// in the part that is asked for; one that was not changed after it is not sent again.
pub proof fn lemma_changed_file_sent(req: Fields, f: FileInfo, secs: u64, m: SystemTime)
    requires
        message::field_of(req, "if-none-match"@) is None,
        message::field_of(req, "if-modified-since"@) == Some(
            http_date::date_text(http_date::date_at(secs)),
        ),
        f.modified == Some(m),
    ensures
        m.secs > secs || (m.secs == secs && m.nanos > 0) ==> sent(req, f),
        m.secs < secs || (m.secs == secs && m.nanos == 0) ==> (file_step(
            req,
            f,
        ) matches FileStepView::Answer(r) && r.status == 304 && r.body.len() == 0),
{
    http_date::lemma_http_date_round_trip(secs);
}

/// The file is sent: all of it where no range is asked for, else the range, or the
/// answer that there is none.
pub open spec fn sent(req: Fields, f: FileInfo) -> bool {
    match file_step(req, f) {
        FileStepView::Whole => message::field_of(req, "range"@) is None,
        FileStepView::Part(a, b) => a <= b < f.size && message::field_of(req, "range"@) is Some,
        FileStepView::Answer(r) => r.status == 416 && message::field_of(req, "range"@) is Some,
    }
}

/// A client that sends back the tag of a file is sent the file again where its size or
/// the second of its last change is another than that of the tag, and only then.
pub proof fn lemma_other_tag_sent(
    req: Fields,
    f: FileInfo,
    m: SystemTime,
    size: u64,
    changed: SystemTime,
)
    requires
        message::field_of(req, "if-none-match"@) == Some(http_date::etag(size, Some(changed))),
        message::field_of(req, "if-modified-since"@) is None,
        f.modified == Some(m),
    ensures
        size != f.size || changed.secs != m.secs ==> sent(req, f),
        size == f.size && changed.secs == m.secs ==> (file_step(
            req,
            f,
        ) matches FileStepView::Answer(r) && r.status == 304 && r.body.len() == 0),
{
    http_date::lemma_tags_differ(size, changed, f.size, m);
    lemma_part_in_file(req, f);
}

/// A part that is sent lies in the file.
proof fn lemma_part_in_file(req: Fields, f: FileInfo)
    ensures
        file_step(req, f) matches FileStepView::Part(a, b) ==> a <= b < f.size,
{
}

/// A client that says nothing of what it has is sent the whole file where it asks for no
/// range; where it asks for the bytes from `a` to `b` it is sent those that there are,
/// and told the size where there are none.
pub proof fn lemma_asked_for_sent(req: Fields, f: FileInfo, a: u64, b: u64)
    requires
        message::field_of(req, "if-none-match"@) is None,
        message::field_of(req, "if-modified-since"@) is None,
    ensures
        message::field_of(req, "range"@) is None ==> file_step(req, f) is Whole,
        message::field_of(req, "range"@) == Some(
            "bytes="@ + (text::decimal(a as nat) + seq!['-'] + text::decimal(b as nat)),
        ) ==> (if a <= b < f.size {
            file_step(req, f) == FileStepView::Part(a, b)
        } else if a <= b && a < f.size {
            file_step(req, f) == FileStepView::Part(a, (f.size - 1) as u64)
        } else {
            file_step(req, f) matches FileStepView::Answer(r) && r.status == 416 && r.body.len()
                == 0
        }),
{
    let x = "bytes="@ + (text::decimal(a as nat) + seq!['-'] + text::decimal(b as nat));
    assert(x + Seq::<char>::empty() =~= x);
    http_date::lemma_ranges(a, b, f.size, seq![]);
}

/// What is sent of a file says how long it is: the length of an answer with a part is
/// that of its body, as is that of an answer with the whole file; the answers have the
/// bytes that were read, the type of the file and its tag.
pub proof fn lemma_length_of_answer(
    path: Seq<char>,
    f: FileInfo,
    a: u64,
    b: u64,
    contents: Seq<u8>,
)
    requires
        a <= b,
    ensures
        ({
            let p = part_response(path, f, a, b, contents);
            let w = whole_response(path, f, contents);
            &&& p.status == 206 && p.body == contents
            &&& contents.len() == b - a + 1 ==> message::value_of(p.headers, "content-length"@)
                == Some(vstd::utf8::encode_utf8(text::decimal(p.body.len())))
            &&& w.status == 200 && w.body == contents
            &&& contents.len() == f.size ==> message::value_of(w.headers, "content-length"@)
                == Some(vstd::utf8::encode_utf8(text::decimal(w.body.len())))
            &&& message::value_of(w.headers, "etag"@) == Some(
                vstd::utf8::encode_utf8(http_date::etag(f.size, f.modified)),
            )
            &&& message::value_of(p.headers, "content-range"@) == Some(
                vstd::utf8::encode_utf8(
                    "bytes "@ + text::decimal(a as nat) + "-"@ + text::decimal(b as nat) + "/"@
                        + text::decimal(f.size as nat),
                ),
            )
        }),
{
    lemma_names();
    lemma_names_differ();
    reveal_with_fuel(message::value_from, 6);
}

/// The names of the fields of an answer differ.
proof fn lemma_names_differ()
    ensures
        "content-type"@ != "content-length"@,
        "content-type"@ != "content-range"@,
        "content-length"@ != "content-range"@,
        "content-type"@ != "etag"@,
        "content-length"@ != "etag"@,
        "content-range"@ != "etag"@,
        "accept-ranges"@ != "etag"@,
{
    reveal_strlit("content-type");
    reveal_strlit("content-length");
    reveal_strlit("content-range");
    reveal_strlit("accept-ranges");
    reveal_strlit("etag");
    assert("content-length"@.len() == 14 && "content-range"@.len() == 13 && "content-type"@.len()
        == 12 && "etag"@.len() == 4 && "accept-ranges"@.len() == 13);
}

/// A path without `..` leads to a file; where that is a directory, to its first index
/// file, with a slash behind the path where slashes are wanted; a directory without one
/// is listed where that is allowed and not found where it is not.
pub proof fn lemma_where_requests_lead(
    g: FileServerView,
    request_path: Seq<char>,
    first_index: Option<int>,
)
    requires
        !text::pieces(relative_path(request_path), '/').contains(".."@),
    ensures
        ({
            let path = rewrite::under(g.root, relative_path(request_path));
            let slash = request_path.len() > 0 && request_path.last() == '/';
            let dir = serve_step(g, request_path, true, first_index);
            &&& serve_step(g, request_path, false, first_index) == ServeStepView::File(path)
            &&& (slash || !g.trailing_slash) && first_index is Some ==> dir == ServeStepView::File(
                rewrite::under(path, g.index[first_index->0]),
            )
            &&& (slash || !g.trailing_slash) && first_index is None && g.browse ==> dir is List
            &&& first_index is None && !g.browse ==> (dir matches ServeStepView::Answer(r)
                && r.status == 404)
            &&& !slash && g.trailing_slash && (first_index is Some || g.browse) ==> (
            dir matches ServeStepView::Answer(r) && r.status == 301 && message::value_of(
                r.headers,
                "location"@,
            ) == Some(vstd::utf8::encode_utf8(request_path.push('/'))))
        }),
{
    reveal_strlit("/");
    reveal_strlit("location");
    lemma_small("location"@);
    let n = request_path.len();
    if n > 0 {
        assert(request_path.subrange(n - 1, n as int)[0] == request_path.last());
        if request_path.last() == '/' {
            assert(request_path.subrange(n - 1, n as int) =~= "/"@);
        }
    }
    assert(request_path + "/"@ =~= request_path.push('/'));
    reveal_with_fuel(message::value_from, 2);
}

/// A path is decoded before it is looked at, and backslashes count as slashes: whatever way
/// it is written in, a path with a part `..` is refused, and any other leads to the file
/// below the directory.
pub proof fn lemma_decoded_path(root: Seq<char>, parts: Seq<Seq<char>>)
    requires
        parts.len() > 0,
        forall|i: int|
            0 <= i < parts.len() ==> !(#[trigger] parts[i]).contains('/') && !parts[i].contains(
                '\\',
            ),
        parts[0].len() > 0,
    ensures
        resolved_path(root, encoding::percent_encoded(text::joined(parts, seq!['/']))) == (
        if parts.contains(".."@) {
            None
        } else {
            Some(rewrite::under(root, text::joined(parts, seq!['/'])))
        }),
        resolved_path(root, encoding::percent_encoded(text::joined(parts, seq!['\\']))) == (
        if parts.contains(".."@) {
            None
        } else {
            Some(rewrite::under(root, text::joined(parts, seq!['/'])))
        }),
{
    reveal_strlit("\\");
    reveal_strlit("/");
    assert("\\"@ =~= seq!['\\'] && "/"@ =~= seq!['/']);
    let a = text::joined(parts, seq!['/']);
    let b = text::joined(parts, seq!['\\']);
    encoding::lemma_percent_round_trip(a);
    encoding::lemma_percent_round_trip(b);
    lemma_joined_first(parts, seq!['/']);
    lemma_joined_first(parts, seq!['\\']);
    assert(parts[0].contains(parts[0][0]));
    lemma_no_slash_before(a);
    lemma_no_slash_before(b);
    text::lemma_pieces_of_joined(parts, '/');
    text::lemma_replaced_separators(parts, '\\', seq!['/']);
    lemma_joined_free(parts, '/', '\\');
    text::lemma_first_single(a, '\\', seq![]);
    text::lemma_replaced_absent(a, seq!['\\'], seq!['/']);
}

/// A text that does not begin with a slash has none to drop.
proof fn lemma_no_slash_before(s: Seq<char>)
    requires
        s.len() > 0 && s[0] != '/',
    ensures
        text::trimmed_start(s, text::only('/')) == s,
{
    assert(text::lead(s, text::only('/'), 0) == 0);
    assert(s.skip(0) =~= s);
}

/// Joined parts begin with the first part.
proof fn lemma_joined_first(parts: Seq<Seq<char>>, sep: Seq<char>)
    requires
        parts.len() > 0,
        parts[0].len() > 0,
    ensures
        text::joined(parts, sep).len() > 0,
        text::joined(parts, sep)[0] == parts[0][0],
    decreases parts.len(),
{
    if parts.len() > 1 {
        let d = parts.drop_last();
        lemma_joined_first(d, sep);
        assert(d[0] == parts[0]);
    }
}

/// Joined parts hold no character that neither they nor the separator hold.
proof fn lemma_joined_free(parts: Seq<Seq<char>>, c: char, x: char)
    requires
        c != x,
        forall|i: int| 0 <= i < parts.len() ==> !(#[trigger] parts[i]).contains(x),
    ensures
        !text::joined(parts, seq![c]).contains(x),
    decreases parts.len(),
{
    if parts.len() > 1 {
        let d = parts.drop_last();
        assert forall|i: int| 0 <= i < d.len() implies !(#[trigger] d[i]).contains(x) by {
            assert(d[i] == parts[i]);
        }
        lemma_joined_free(d, c, x);
        let (a, b) = (text::joined(d, seq![c]), parts.last());
        let all = a + seq![c] + b;
        assert(all == text::joined(parts, seq![c]));
        assert(!parts[parts.len() - 1].contains(x));
        if all.contains(x) {
            let i = choose|i: int| 0 <= i < all.len() && all[i] == x;
            if i < a.len() {
                assert(a.contains(a[i]));
            } else if i > a.len() {
                assert(b.contains(b[i - a.len() - 1]));
            }
        }
    }
}

/// A compressed form of a file is sent only where the client names its encoding, or takes
/// anything, and asks for no part; the forms come in the order of preference.
pub proof fn lemma_compressed_forms(req: Fields, path: Seq<char>, accepted: Seq<char>)
    requires
        message::field_of(req, "accept-encoding"@) == Some(accepted),
    ensures
        message::value_of(req, "range"@) is Some ==> compressed_forms(req, path).len() == 0,
        message::value_of(req, "range"@) is None ==> {
            let f = compressed_forms(req, path);
            &&& f.contains(("br"@, path + ".br"@)) <==> text::contains(accepted, "br"@)
                || accepted.contains('*')
            &&& f.contains(("zstd"@, path + ".zst"@)) <==> text::contains(accepted, "zstd"@)
                || accepted.contains('*')
            &&& f.contains(("gzip"@, path + ".gz"@)) <==> text::contains(accepted, "gzip"@)
                || accepted.contains('*')
            &&& accepted.contains('*') ==> f == seq![
                ("br"@, path + ".br"@),
                ("zstd"@, path + ".zst"@),
                ("gzip"@, path + ".gz"@),
            ]
        },
{
    reveal_strlit("br");
    reveal_strlit("zstd");
    reveal_strlit("gzip");
    assert("br"@.len() == 2 && "zstd"@[0] == 'z' && "gzip"@[0] == 'g');
    let a = form(accepted, path, "br"@, ".br"@);
    let b = form(accepted, path, "zstd"@, ".zst"@);
    let c = form(accepted, path, "gzip"@, ".gz"@);
    let f = a + b + c;
    if a.len() == 1 {
        assert(f[0] == ("br"@, path + ".br"@));
    }
    if b.len() == 1 {
        assert(f[a.len() as int] == ("zstd"@, path + ".zst"@));
    }
    if c.len() == 1 {
        assert(f[(a.len() + b.len()) as int] == ("gzip"@, path + ".gz"@));
    }
    assert forall|i: int| 0 <= i < f.len() implies f[i].0 == "br"@ && a.len() == 1 || f[i].0
        == "zstd"@ && b.len() == 1 || f[i].0 == "gzip"@ && c.len() == 1 by {
        if i < a.len() {
            assert(f[i] == a[i]);
        } else if i < a.len() + b.len() {
            assert(f[i] == b[i - a.len()]);
        } else {
            assert(f[i] == c[i - a.len() - b.len()]);
        }
    }
    if accepted.contains('*') {
        assert(f =~= seq![
            ("br"@, path + ".br"@),
            ("zstd"@, path + ".zst"@),
            ("gzip"@, path + ".gz"@),
        ]);
    }
}

} // verus!
