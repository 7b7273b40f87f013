//! Changing what a request asks for.

use vstd::prelude::*;
use crate::data;
use crate::data::Data;
use crate::error::{ProxyError, ProxyErrorView};
use crate::message;
use crate::message::{build_uri, Uri, UriView};
use crate::pattern;
use crate::text;

verus! {

/// The plain values of a [`RewriteHoop`].
#[verifier::ext_equal]
pub struct RewriteView {
    pub strip_prefix: Option<Seq<char>>,
    pub uri_template: Option<Seq<char>>,
    pub regex_rules: Seq<(Seq<char>, Seq<char>)>,
    pub if_not_file: bool,
    pub if_not_dir: bool,
    pub root: Option<Seq<char>>,
    pub normalize_slashes: bool,
}

/// Changes what a request asks for.
///
/// - **strip_prefix**: the prefix is taken off the path, so that with `/api` the
///   path `/api/users?q=1` becomes `/users?q=1`.
/// - **uri**: the whole is replaced; `{path}` and `{query}` stand for what was asked
///   for.
/// - **regex_rules**: matches in the path are replaced, rule after rule.
/// - **if_not_file** / **if_not_dir**: nothing is changed where the path is that of a
///   file or directory under `root`.
pub struct RewriteHoop {
    pub strip_prefix: Option<String>,
    pub uri_template: Option<String>,
    /// Expressions and what their matches are replaced by.
    pub regex_rules: Vec<(String, String)>,
    pub if_not_file: bool,
    pub if_not_dir: bool,
    pub root: Option<String>,
    pub normalize_slashes: bool,
}

impl DeepView for RewriteHoop {
    type V = RewriteView;

    open spec fn deep_view(&self) -> RewriteView {
        RewriteView {
            strip_prefix: self.strip_prefix.deep_view(),
            uri_template: self.uri_template.deep_view(),
            regex_rules: self.regex_rules.deep_view(),
            if_not_file: self.if_not_file,
            if_not_dir: self.if_not_dir,
            root: self.root.deep_view(),
            normalize_slashes: self.normalize_slashes,
        }
    }
}

/// The outcome of changing a URI.
pub type Rewritten = Result<UriView, ProxyErrorView>;

/// A path with one slash in place of several.
pub open spec fn collapsed(s: Seq<char>) -> Seq<char>
    decreases s.len(),
{
    if s.len() == 0 {
        s
    } else {
        let before = collapsed(s.drop_last());
        if s.last() == '/' && s.len() > 1 && s[s.len() - 2] == '/' {
            before
        } else {
            before.push(s.last())
        }
    }
}

/// Puts one slash in place of several, so that `//foo///bar` becomes `/foo/bar`.
pub fn collapse_slashes(path: &str) -> (r: String)
    ensures
        r@ == collapsed(path@),
{
    let v = text::chars(path);
    let mut out = String::new();
    let mut prev_slash = false;
    assert(path@.take(0) =~= seq![]);
    assert(out@ =~= seq![]);
    for i in 0..v.len()
        invariant
            v@ == path@,
            out@ == collapsed(path@.take(i as int)),
            prev_slash == (i > 0 && path@[i - 1] == '/'),
    {
        assert(path@.take(i + 1).drop_last() =~= path@.take(i as int));
        let c = v[i];
        if c == '/' {
            if !prev_slash {
                out.push(c);
            }
            prev_slash = true;
        } else {
            out.push(c);
            prev_slash = false;
        }
    }
    assert(path@.take(path@.len() as int) =~= path@);
    out
}

/// No two slashes follow each other in a collapsed path.
pub proof fn lemma_collapsed(s: Seq<char>)
    ensures
        forall|i: int|
            0 <= i < collapsed(s).len() - 1 ==> !(#[trigger] collapsed(s)[i] == '/'
                && collapsed(s)[i + 1] == '/'),
        s.len() > 0 ==> collapsed(s).len() > 0 && (collapsed(s).last() == '/') == (s.last()
            == '/'),
    decreases s.len(),
{
    if s.len() > 0 {
        let d = s.drop_last();
        lemma_collapsed(d);
        let before = collapsed(d);
        if s.len() > 1 {
            assert(d.last() == s[s.len() - 2]);
        }
        if !(s.last() == '/' && s.len() > 1 && s[s.len() - 2] == '/') {
            let all = before.push(s.last());
            assert forall|i: int| 0 <= i < all.len() - 1 implies !(#[trigger] all[i] == '/'
                && all[i + 1] == '/') by {
                assert(all[i] == before[i]);
                if i + 1 < before.len() {
                    assert(all[i + 1] == before[i + 1]);
                } else {
                    assert(before[i] == before.last());
                }
            }
        }
    }
}

/// A URI with another path and query.
pub open spec fn rebuilt(u: UriView, pq: Seq<char>) -> Rewritten {
    match message::built_uri(u.scheme, u.authority, pq) {
        Ok(v) => Ok(v),
        Err(e) => Err(ProxyErrorView::Internal("failed to build rewritten URI: "@ + e)),
    }
}

/// Puts another path and query into a URI.
pub fn rebuild_uri(original: &Uri, new_path_and_query: &str) -> (r: Result<Uri, ProxyError>)
    ensures
        data::outcome(r) == rebuilt(original.deep_view(), new_path_and_query@),
{
    match build_uri(&original.scheme, &original.authority, new_path_and_query) {
        Ok(v) => Ok(v),
        Err(e) => Err(
            ProxyError::Internal(text::join("failed to build rewritten URI: ", e.as_str())),
        ),
    }
}

/// A path with a query behind it, where there is one.
pub open spec fn with_query(path: Seq<char>, query: Seq<char>) -> Seq<char> {
    if query.len() == 0 {
        path
    } else {
        path + "?"@ + query
    }
}

/// A path with a query behind it, where there is one.
fn add_query(path: String, query: &str) -> (r: String)
    ensures
        r@ == with_query(path@, query@),
{
    if query.is_empty() {
        path
    } else {
        text::join3(path.as_str(), "?", query)
    }
}

/// A URI with one slash in place of several, where that is asked for.
pub open spec fn normalized(w: RewriteView, u: UriView) -> Rewritten {
    if w.normalize_slashes && text::contains(u.path(), "//"@) {
        rebuilt(u, with_query(collapsed(u.path()), u.query_text()))
    } else {
        Ok(u)
    }
}

/// A path under a directory.
pub open spec fn under(root: Seq<char>, rel: Seq<char>) -> Seq<char> {
    if root.len() == 0 || root.last() == '/' {
        root + rel
    } else {
        root + "/"@ + rel
    }
}

/// A path under a directory.
pub fn join_path(root: &str, rel: &str) -> (r: String)
    ensures
        r@ == under(root@, rel@),
{
    proof {
        reveal_strlit("/");
        if root@.len() > 0 {
            assert(text::ends(root@, "/"@) == (root@.last() == '/')) by {
                let n = root@.len() as int;
                assert(root@.subrange(n - 1, n) =~= seq![root@.last()]);
                assert("/"@ =~= seq!['/']);
                if seq![root@.last()] == seq!['/'] {
                    assert(seq![root@.last()][0] == seq!['/'][0]);
                }
            }
        }
    }
    if root.is_empty() || text::ends_with(root, "/") {
        text::join(root, rel)
    } else {
        text::join3(root, "/", rel)
    }
}

/// The path in the file system that decides whether a URI is changed.
pub open spec fn deciding_path(w: RewriteView, u: UriView) -> Option<Seq<char>> {
    match w.root {
        Some(root) if w.if_not_file || w.if_not_dir => Some(
            under(root, text::trimmed_start(u.path(), text::only('/'))),
        ),
        _ => None,
    }
}

/// A path without a prefix that ends where a part of the path does.
pub open spec fn stripped(path: Seq<char>, prefix: Seq<char>) -> Seq<char> {
    if path == prefix {
        "/"@
    } else {
        match text::after_prefix(path, prefix) {
            Some(rest) => if rest.len() == 0 {
                "/"@
            } else if text::begins(rest, "/"@) {
                rest
            } else {
                path
            },
            None => path,
        }
    }
}

/// Takes a prefix off a path that ends where a part of the path does.
fn strip(path: &str, prefix: &str) -> (r: String)
    ensures
        r@ == stripped(path@, prefix@),
{
    if text::same(path, prefix) {
        return "/".to_owned();
    }
    match text::strip_prefix(path, prefix) {
        Some(rest) => if rest.as_str().is_empty() {
            "/".to_owned()
        } else if text::starts_with(rest.as_str(), "/") {
            rest
        } else {
            path.to_owned()
        },
        None => path.to_owned(),
    }
}

/// The path of what has been made so far, or the one that was asked for.
pub open spec fn current_path(pq: Option<Seq<char>>, u: UriView) -> Seq<char> {
    match pq {
        Some(s) => text::before(s, '?'),
        None => u.path(),
    }
}

/// The query of what has been made so far, or the one that was asked for.
pub open spec fn current_query(pq: Option<Seq<char>>, u: UriView) -> Seq<char> {
    match pq {
        Some(s) => match text::cut(s, '?') {
            Some((_, q)) => q,
            None => u.query_text(),
        },
        None => u.query_text(),
    }
}

/// The rules from `i` on whose expression is one.
pub open spec fn valid_rules(rules: Seq<(Seq<char>, Seq<char>)>, i: int) -> Seq<
    (Seq<char>, Seq<char>),
>
    decreases rules.len() - i,
{
    if i < 0 || i >= rules.len() {
        seq![]
    } else if pattern::regex_accepted(rules[i].0) {
        seq![rules[i]] + valid_rules(rules, i + 1)
    } else {
        valid_rules(rules, i + 1)
    }
}

/// A copy of rules whose expression is one.
fn copy_valid_rules(rules: &Vec<(String, String)>) -> (r: Vec<(String, String)>)
    ensures
        r.deep_view() == valid_rules(rules.deep_view(), 0),
{
    let ghost rs = rules.deep_view();
    let mut out: Vec<(String, String)> = Vec::new();
    assert(out.deep_view() + valid_rules(rs, 0) =~= valid_rules(rs, 0));
    for i in 0..rules.len()
        invariant
            rs == rules.deep_view(),
            out.deep_view() + valid_rules(rs, i as int) == valid_rules(rs, 0),
    {
        let r = &rules[i];
        assert(rs[i as int] == (r.0@, r.1@));
        if pattern::is_regex(r.0.as_str()) {
            let ghost before = out.deep_view();
            out.push(r.duplicate());
            assert(out.deep_view() =~= before.push(rs[i as int]));
            assert(out.deep_view() + valid_rules(rs, i + 1) =~= before + (seq![rs[i as int]]
                + valid_rules(rs, i + 1)));
        }
    }
    assert(out.deep_view() =~= out.deep_view() + valid_rules(rs, rs.len() as int));
    out
}

/// A path as the rules with an expression from `i` on change it.
pub open spec fn regex_applied(path: Seq<char>, rules: Seq<(Seq<char>, Seq<char>)>, i: int) -> Seq<
    char,
>
    decreases rules.len() - i,
{
    if i < 0 || i >= rules.len() {
        path
    } else {
        let next = if pattern::regex_accepted(rules[i].0) {
            pattern::regex_replaced(rules[i].0, path, rules[i].1)
        } else {
            path
        };
        regex_applied(next, rules, i + 1)
    }
}

/// The new path and query, where there is one: first the prefix goes, then the
/// template is filled, then the expressions are applied.
pub open spec fn new_target(w: RewriteView, u: UriView) -> Option<Seq<char>> {
    let a = match w.strip_prefix {
        Some(p) => Some(with_query(stripped(u.path(), p), u.query_text())),
        None => None,
    };
    let b = match w.uri_template {
        Some(t) => Some(
            text::replaced(
                text::replaced(t, "{path}"@, current_path(a, u)),
                "{query}"@,
                current_query(a, u),
            ),
        ),
        None => a,
    };
    if w.regex_rules.len() == 0 {
        b
    } else {
        Some(
            with_query(
                regex_applied(current_path(b, u), w.regex_rules, 0),
                current_query(b, u),
            ),
        )
    }
}

/// What a URI becomes, given what stands at the deciding path in the file system.
pub open spec fn rewritten(w: RewriteView, u: UriView, is_file: bool, is_dir: bool) -> Rewritten {
    if deciding_path(w, u) is Some && ((w.if_not_file && is_file) || (w.if_not_dir && is_dir)) {
        Ok(u)
    } else {
        match new_target(w, u) {
            Some(pq) => rebuilt(u, pq),
            None => Ok(u),
        }
    }
}

impl RewriteHoop {
    /// The hoop with the given rules. Rules whose expression is none are left out.
    pub fn new(
        strip_prefix: Option<String>,
        uri_template: Option<String>,
        regex_rules: Vec<(String, String)>,
        if_not_file: bool,
        if_not_dir: bool,
        root: Option<String>,
        normalize_slashes: bool,
    ) -> (w: RewriteHoop)
        ensures
            w.deep_view() == (RewriteView {
                strip_prefix: strip_prefix.deep_view(),
                uri_template: uri_template.deep_view(),
                regex_rules: valid_rules(regex_rules.deep_view(), 0),
                if_not_file,
                if_not_dir,
                root: root.deep_view(),
                normalize_slashes,
            }),
    {
        RewriteHoop {
            strip_prefix,
            uri_template,
            regex_rules: copy_valid_rules(&regex_rules),
            if_not_file,
            if_not_dir,
            root,
            normalize_slashes,
        }
    }

    /// Puts one slash in place of several, where that is asked for. This comes
    /// before everything else.
    pub fn normalize(&self, uri: &Uri) -> (r: Result<Uri, ProxyError>)
        ensures
            data::outcome(r) == normalized(self.deep_view(), uri.deep_view()),
    {
        let path = uri.path();
        if self.normalize_slashes && text::has(path.as_str(), "//") {
            let pq = add_query(collapse_slashes(path.as_str()), uri.query_text().as_str());
            rebuild_uri(uri, pq.as_str())
        } else {
            Ok(uri.clone())
        }
    }

    /// The path in the file system that decides whether the URI is changed.
    pub fn path_to_check(&self, uri: &Uri) -> (r: Option<String>)
        ensures
            r.deep_view() == deciding_path(self.deep_view(), uri.deep_view()),
    {
        match &self.root {
            Some(root) => if self.if_not_file || self.if_not_dir {
                let rel = text::trim_start_char(uri.path().as_str(), '/');
                Some(join_path(root.as_str(), rel.as_str()))
            } else {
                None
            },
            None => None,
        }
    }
}

/// Changes a URI that has gone through [`RewriteHoop::normalize`], given whether the
/// path of [`RewriteHoop::path_to_check`] is that of a file or a directory.
pub fn apply_rewrite(mw: &RewriteHoop, uri: &Uri, is_file: bool, is_dir: bool) -> (r: Result<
    Uri,
    ProxyError,
>)
    ensures
        data::outcome(r) == rewritten(mw.deep_view(), uri.deep_view(), is_file, is_dir),
{
    if mw.root.is_some() && ((mw.if_not_file && is_file) || (mw.if_not_dir && is_dir)) {
        return Ok(uri.clone());
    }
    let ghost u = uri.deep_view();
    let ghost w = mw.deep_view();
    let path = uri.path();
    let query = uri.query_text();
    let mut made: Option<String> = None;
    if let Some(prefix) = &mw.strip_prefix {
        made = Some(add_query(strip(path.as_str(), prefix.as_str()), query.as_str()));
    }
    let ghost a = made.deep_view();
    if let Some(template) = &mw.uri_template {
        let p = path_so_far(&made, path.as_str(), Ghost(u));
        let q = query_so_far(&made, query.as_str(), Ghost(u));
        let t = text::replace(template.as_str(), "{path}", p.as_str());
        made = Some(text::replace(t.as_str(), "{query}", q.as_str()));
    }
    let ghost b = made.deep_view();
    if mw.regex_rules.len() > 0 {
        let mut p = path_so_far(&made, path.as_str(), Ghost(u));
        let q = query_so_far(&made, query.as_str(), Ghost(u));
        let ghost first = p@;
        let ghost rules = mw.regex_rules.deep_view();
        for i in 0..mw.regex_rules.len()
            invariant
                rules == mw.regex_rules.deep_view(),
                regex_applied(p@, rules, i as int) == regex_applied(first, rules, 0),
        {
            let rule = &mw.regex_rules[i];
            assert(rules[i as int] == (rule.0@, rule.1@));
            if let Some(t) = pattern::replace(rule.0.as_str(), p.as_str(), rule.1.as_str()) {
                p = t;
            }
        }
        made = Some(add_query(p, q.as_str()));
    }
    match made {
        Some(pq) => rebuild_uri(uri, pq.as_str()),
        None => Ok(uri.clone()),
    }
}

/// The path of what has been made so far, or the one that was asked for.
fn path_so_far(made: &Option<String>, path: &str, Ghost(u): Ghost<UriView>) -> (r: String)
    requires
        path@ == u.path(),
    ensures
        r@ == current_path(made.deep_view(), u),
{
    match made {
        Some(s) => text::before_char(s.as_str(), '?'),
        None => path.to_owned(),
    }
}

/// The query of what has been made so far, or the one that was asked for.
fn query_so_far(made: &Option<String>, query: &str, Ghost(u): Ghost<UriView>) -> (r: String)
    requires
        query@ == u.query_text(),
    ensures
        r@ == current_query(made.deep_view(), u),
{
    match made {
        Some(s) => match text::split_once(s.as_str(), '?') {
            Some((_, q)) => q,
            None => query.to_owned(),
        },
        None => query.to_owned(),
    }
}

/// Without rules nothing changes.
pub proof fn lemma_no_rules(w: RewriteView, u: UriView, is_file: bool, is_dir: bool)
    requires
        w.strip_prefix is None,
        w.uri_template is None,
        w.regex_rules.len() == 0,
        !w.normalize_slashes,
    ensures
        normalized(w, u) == Ok::<UriView, ProxyErrorView>(u),
        rewritten(w, u, is_file, is_dir) == Ok::<UriView, ProxyErrorView>(u),
{
}

/// A prefix is taken off only where a part of the path ends: after it comes a slash
/// or nothing, and the path still begins with a slash.
pub proof fn lemma_prefix_at_boundary(path: Seq<char>, prefix: Seq<char>)
    ensures
        stripped(path, prefix) != path ==> stripped(path, prefix) == "/"@ || (text::begins(
            stripped(path, prefix),
            "/"@,
        ) && path == prefix + stripped(path, prefix)),
{
    if let Some(rest) = text::after_prefix(path, prefix) {
        assert(path =~= prefix + rest);
    }
}

/// A prefix is taken off every path that goes on behind it with a slash, and off the path
/// that it is; a path that goes on in any other way, or does not begin with it, is left
/// as it is.
pub proof fn lemma_prefix_taken_off(prefix: Seq<char>, rest: Seq<char>, other: Seq<char>)
    ensures
        stripped(prefix, prefix) == seq!['/'],
        stripped(prefix + seq!['/'] + rest, prefix) == seq!['/'] + rest,
        rest.len() > 0 && rest[0] != '/' ==> stripped(prefix + rest, prefix) == prefix + rest,
        !text::begins(other, prefix) ==> stripped(other, prefix) == other,
{
    reveal_strlit("/");
    assert("/"@ =~= seq!['/']);
    let below = seq!['/'] + rest;
    assert(prefix + seq!['/'] + rest =~= prefix + below);
    text::lemma_after_prefix(prefix, below);
    text::lemma_after_prefix(prefix, rest);
    text::lemma_after_prefix(seq!['/'], rest);
    assert((prefix + below).len() > prefix.len());
    if rest.len() > 0 {
        assert((prefix + rest).len() > prefix.len());
        if text::begins(rest, "/"@) {
            assert(rest.subrange(0, 1)[0] == rest[0]);
        }
    }
    if other == prefix {
        assert(prefix.subrange(0, prefix.len() as int) =~= prefix);
    }
}

/// One slash stands for several: a further slash behind one changes nothing, and whatever
/// else comes behind is kept.
pub proof fn lemma_collapsed_step(s: Seq<char>, c: char)
    ensures
        collapsed(s.push('/').push('/')) == collapsed(s.push('/')),
        c != '/' ==> collapsed(s.push(c)) == collapsed(s).push(c),
        s.len() == 0 || s.last() != '/' ==> collapsed(s.push('/')) == collapsed(s).push('/'),
        collapsed(Seq::empty()) == Seq::<char>::empty(),
{
    let t = s.push('/');
    assert(t.push('/').drop_last() =~= t);
    assert(s.push(c).drop_last() =~= s);
    assert(t.drop_last() =~= s);
    assert(t.push('/')[t.len() - 1] == '/');
}

/// A path without two slashes in a row stays as it is, so that doing it twice is doing it
/// once.
pub proof fn lemma_collapsed_twice(s: Seq<char>)
    ensures
        collapsed(collapsed(s)) == collapsed(s),
        (forall|i: int| 0 <= i < s.len() - 1 ==> !(#[trigger] s[i] == '/' && s[i + 1] == '/'))
            ==> collapsed(s) == s,
{
    lemma_collapsed(s);
    lemma_single_slashes(collapsed(s));
    if forall|i: int| 0 <= i < s.len() - 1 ==> !(#[trigger] s[i] == '/' && s[i + 1] == '/') {
        lemma_single_slashes(s);
    }
}

/// A path without two slashes in a row stays as it is.
proof fn lemma_single_slashes(s: Seq<char>)
    requires
        forall|i: int| 0 <= i < s.len() - 1 ==> !(#[trigger] s[i] == '/' && s[i + 1] == '/'),
    ensures
        collapsed(s) == s,
    decreases s.len(),
{
    if s.len() > 0 {
        let d = s.drop_last();
        assert forall|i: int| 0 <= i < d.len() - 1 implies !(#[trigger] d[i] == '/' && d[i + 1]
            == '/') by {
            assert(d[i] == s[i] && d[i + 1] == s[i + 1]);
        }
        lemma_single_slashes(d);
        if s.len() > 1 {
            assert(!(s[s.len() - 2] == '/' && s[s.len() - 2 + 1] == '/'));
        }
        assert(d.push(s.last()) =~= s);
    }
}

/// The query stays with the path whose prefix is taken off.
pub proof fn lemma_query_stays(
    w: RewriteView,
    u: UriView,
    prefix: Seq<char>,
    rest: Seq<char>,
    query: Seq<char>,
)
    requires
        w.strip_prefix == Some(prefix),
        w.uri_template is None,
        w.regex_rules.len() == 0,
        !prefix.contains('?'),
        !rest.contains('?'),
    ensures
        query.len() > 0 && u.path_and_query == Some(
            prefix + seq!['/'] + rest + seq!['?'] + query,
        ) ==> new_target(w, u) == Some(seq!['/'] + rest + seq!['?'] + query),
        u.path_and_query == Some(prefix + seq!['/'] + rest) ==> new_target(w, u) == Some(
            seq!['/'] + rest,
        ),
{
    reveal_strlit("?");
    assert("?"@ =~= seq!['?']);
    let path = prefix + seq!['/'] + rest;
    assert(!path.contains('?')) by {
        if path.contains('?') {
            let i = choose|i: int| 0 <= i < path.len() && path[i] == '?';
            if i < prefix.len() {
                assert(prefix.contains(prefix[i]));
            } else if i > prefix.len() {
                assert(rest.contains(rest[i - prefix.len() - 1]));
            }
        }
    }
    message::lemma_path_and_query(u, path, query);
    lemma_prefix_taken_off(prefix, rest, path);
}

/// A URI with a template becomes the template with `{path}` and `{query}` replaced, and
/// nothing of what was asked for stays that the template does not name.
pub proof fn lemma_template_filled(w: RewriteView, u: UriView, t: Seq<char>)
    requires
        w.strip_prefix is None,
        w.uri_template == Some(t),
        w.regex_rules.len() == 0,
    ensures
        new_target(w, u) == Some(
            text::replaced(text::replaced(t, "{path}"@, u.path()), "{query}"@, u.query_text()),
        ),
        !text::contains(t, "{path}"@) && !text::contains(t, "{query}"@) ==> new_target(w, u)
            == Some(t),
{
    reveal_strlit("{path}");
    reveal_strlit("{query}");
    if !text::contains(t, "{path}"@) && !text::contains(t, "{query}"@) {
        text::lemma_replaced_absent(t, "{path}"@, u.path());
        text::lemma_replaced_absent(t, "{query}"@, u.query_text());
    }
}

/// What is a file, or a directory, stays as it was asked for where that is said and a root
/// is known; everything else is changed as the rules say.
pub proof fn lemma_files_stay(w: RewriteView, u: UriView, is_file: bool, is_dir: bool)
    ensures
        w.root is Some && w.if_not_file && is_file ==> rewritten(w, u, is_file, is_dir) == Ok::<
            UriView,
            ProxyErrorView,
        >(u),
        w.root is Some && w.if_not_dir && is_dir ==> rewritten(w, u, is_file, is_dir) == Ok::<
            UriView,
            ProxyErrorView,
        >(u),
        (w.root is None || (!is_file && !is_dir) || (!w.if_not_file && !w.if_not_dir))
            && new_target(w, u) is Some ==> rewritten(w, u, is_file, is_dir) == rebuilt(
            u,
            new_target(w, u)->0,
        ),
{
}

/// A path under a directory has one slash between the two.
pub proof fn lemma_under(root: Seq<char>, rel: Seq<char>)
    requires
        root.len() > 0,
    ensures
        root.last() != '/' ==> under(root, rel) == root + seq!['/'] + rel,
        root.last() == '/' ==> under(root, rel) == root + rel,
{
    reveal_strlit("/");
    assert("/"@ =~= seq!['/']);
}

} // verus!
