//! Lists of the files of a directory.

use vstd::prelude::*;
use crate::data::Data;
use crate::encoding;
use crate::encoding::{html_escape, percent_encode};
use crate::http_date;
use crate::http_date::format_http_date;
use crate::mime_guess;
use crate::mime_guess::format_size;
use crate::ranking;
use crate::ranking::{sort, Ranked};
use crate::sorted_map;
use crate::text;
use crate::time::SystemTime;

verus! {

impl Data for SystemTime {
    fn duplicate(&self) -> (r: SystemTime) {
        *self
    }

    fn same_as(&self, other: &SystemTime) -> (r: bool) {
        *self == *other
    }
}

/// The plain values of a [`DirEntry`].
#[verifier::ext_equal]
pub struct DirEntryView {
    pub name: Seq<char>,
    pub is_dir: bool,
    pub size: u64,
    pub modified: Option<SystemTime>,
}

/// A file or directory in a list.
#[derive(Debug, PartialEq, Eq)]
pub struct DirEntry {
    pub name: String,
    pub is_dir: bool,
    pub size: u64,
    pub modified: Option<SystemTime>,
}

impl DeepView for DirEntry {
    type V = DirEntryView;

    open spec fn deep_view(&self) -> DirEntryView {
        DirEntryView {
            name: self.name.deep_view(),
            is_dir: self.is_dir.deep_view(),
            size: self.size.deep_view(),
            modified: self.modified.deep_view(),
        }
    }
}

impl Data for DirEntry {
    fn duplicate(&self) -> (r: DirEntry) {
        DirEntry {
            name: self.name.duplicate(),
            is_dir: self.is_dir.duplicate(),
            size: self.size.duplicate(),
            modified: self.modified.duplicate(),
        }
    }

    fn same_as(&self, other: &DirEntry) -> (r: bool) {
        self.name.same_as(&other.name) && self.is_dir.same_as(&other.is_dir) && self.size.same_as(&other.size) && self.modified.same_as(&other.modified)
    }
}

impl Clone for DirEntry {
    fn clone(&self) -> (r: DirEntry)
        ensures
            r.deep_view() == self.deep_view(),
    {
        self.duplicate()
    }
}

impl Ranked for DirEntry {
    /// Directories come before files, each in the order of their names in small
    /// letters.
    open spec fn precedes(a: DirEntryView, b: DirEntryView) -> bool {
        if a.is_dir != b.is_dir {
            a.is_dir
        } else {
            sorted_map::text_before(text::lowered(a.name), text::lowered(b.name))
        }
    }

    fn goes_before(&self, other: &DirEntry) -> (r: bool) {
        if self.is_dir != other.is_dir {
            self.is_dir
        } else {
            sorted_map::comes_before(
                text::to_lower(self.name.as_str()).as_str(),
                text::to_lower(other.name.as_str()).as_str(),
            )
        }
    }
}

/// The path as a list shows it.
pub open spec fn display_path(request_path: Seq<char>) -> Seq<char> {
    let p = text::trimmed_end(request_path, text::only('/'));
    if p.len() == 0 {
        "/"@
    } else {
        p
    }
}

/// The path of the directory above.
pub open spec fn parent_path(path: Seq<char>) -> Seq<char> {
    match text::last_char_at(path, '/', path.len() as int) {
        Some(i) if i > 0 => path.take(i),
        _ => "/"@,
    }
}

/// The line that leads to the directory above, where there is one.
pub open spec fn parent_row(request_path: Seq<char>, is_root: bool) -> Seq<char> {
    let p = display_path(request_path);
    if is_root || p == "/"@ {
        ""@
    } else {
        "<tr class=\"dir\"><td><a href=\""@ + encoding::html_escaped(parent_path(p))
            + "\">..</a></td><td class=\"size\">-</td><td class=\"date\">-</td></tr>\n"@
    }
}

/// What the paths of the files begin with.
pub open spec fn base_path(request_path: Seq<char>) -> Seq<char> {
    if text::ends(request_path, "/"@) {
        request_path
    } else {
        request_path + "/"@
    }
}

/// Where the line of a file leads.
pub open spec fn href(e: DirEntryView, base: Seq<char>) -> Seq<char> {
    let h = base + encoding::percent_encoded(e.name);
    if e.is_dir {
        text::trimmed_end(h, text::only('/')) + "/"@
    } else {
        h
    }
}

/// The line of a file.
pub open spec fn entry_row(e: DirEntryView, base: Seq<char>) -> Seq<char> {
    let name = if e.is_dir {
        e.name + "/"@
    } else {
        e.name
    };
    let class = if e.is_dir {
        " class=\"dir\""@
    } else {
        ""@
    };
    let size = if e.is_dir {
        "-"@
    } else {
        mime_guess::size_text(e.size)
    };
    let date = match e.modified {
        Some(t) => http_date::date_text(http_date::date_at(t.secs)),
        None => "-"@,
    };
    "<tr"@ + class + "><td><a href=\""@ + encoding::html_escaped(href(e, base)) + "\">"@
        + encoding::html_escaped(name) + "</a></td><td class=\"size\">"@ + size
        + "</td><td class=\"date\">"@ + date + "</td></tr>\n"@
}

/// The lines of the files from `i` on.
pub open spec fn entry_rows(es: Seq<DirEntryView>, base: Seq<char>, i: int) -> Seq<char>
    decreases es.len() - i,
{
    if i < 0 || i >= es.len() {
        seq![]
    } else {
        entry_row(es[i], base) + entry_rows(es, base, i + 1)
    }
}

/// The page that lists the files of a directory: the directories first, each kind
/// in the order of their names.
pub open spec fn listing(es: Seq<DirEntryView>, request_path: Seq<char>, is_root: bool) -> Seq<
    char,
> {
    let p = encoding::html_escaped(display_path(request_path));
    "<!DOCTYPE html>\n<html lang=\"en\">\n<head>\n<meta charset=\"utf-8\">\n<meta name=\"viewport\" content=\"width=device-width, initial-scale=1.0\">\n<title>Index of "@ + p + "</title>\n<style>\nbody { font-family: -apple-system, BlinkMacSystemFont, 'Segoe UI', Roboto, sans-serif; margin: 2em; color: #333; background: #fafafa; }\nh1 { font-size: 1.4em; font-weight: 600; border-bottom: 1px solid #ddd; padding-bottom: 0.5em; }\ntable { border-collapse: collapse; width: 100%; max-width: 900px; }\nth, td { text-align: left; padding: 6px 16px 6px 0; }\nth { font-size: 0.85em; text-transform: uppercase; color: #666; border-bottom: 2px solid #ddd; }\ntr:hover { background: #f0f0f0; }\na { color: #0366d6; text-decoration: none; }\na:hover { text-decoration: underline; }\n.dir a::before { content: '\\1F4C1 '; }\n.size, .date { color: #666; font-size: 0.9em; }\n</style>\n</head>\n<body>\n<h1>Index of "@ + p + "</h1>\n<table>\n<thead><tr><th>Name</th><th>Size</th><th>Modified</th></tr></thead>\n<tbody>\n"@ + parent_row(request_path, is_root) + entry_rows(
        ranking::sorted::<DirEntry>(es),
        base_path(request_path),
        0,
    ) + "</tbody>\n</table>\n</body>\n</html>\n"@
}

/// The path as a list shows it.
fn shown_path(request_path: &str) -> (r: String)
    ensures
        r@ == display_path(request_path@),
{
    let p = text::trim_end_char(request_path, '/');
    if p.as_str().is_empty() {
        "/".to_owned()
    } else {
        p
    }
}

/// Writes the line that leads to the directory above, where there is one.
fn write_parent(request_path: &str, is_root: bool) -> (r: String)
    ensures
        r@ == parent_row(request_path@, is_root),
{
    let p = shown_path(request_path);
    if is_root || text::same(p.as_str(), "/") {
        return "".to_owned();
    }
    let v = text::chars(p.as_str());
    let parent = match text::rfind_char_in(v.as_slice(), '/') {
        Some(i) => if i > 0 {
            let t = text::string_of(v.as_slice(), 0, i);
            assert(t@ =~= p@.take(i as int));
            t
        } else {
            "/".to_owned()
        },
        None => "/".to_owned(),
    };
    text::join3(
        "<tr class=\"dir\"><td><a href=\"",
        html_escape(parent.as_str()).as_str(),
        "\">..</a></td><td class=\"size\">-</td><td class=\"date\">-</td></tr>\n",
    )
}

/// Writes the line of a file.
fn write_entry(e: &DirEntry, base: &str) -> (r: String)
    ensures
        r@ == entry_row(e.deep_view(), base@),
{
    let name = if e.is_dir {
        text::join(e.name.as_str(), "/")
    } else {
        e.name.clone()
    };
    let class = if e.is_dir {
        " class=\"dir\""
    } else {
        ""
    };
    let size = if e.is_dir {
        "-".to_owned()
    } else {
        format_size(e.size)
    };
    let date = match e.modified {
        Some(t) => format_http_date(t),
        None => "-".to_owned(),
    };
    let plain = text::join(base, percent_encode(e.name.as_str()).as_str());
    let link = if e.is_dir {
        text::join(text::trim_end_char(plain.as_str(), '/').as_str(), "/")
    } else {
        plain
    };
    let a = text::join3("<tr", class, "><td><a href=\"");
    let b = text::join3(a.as_str(), html_escape(link.as_str()).as_str(), "\">");
    let c = text::join3(
        b.as_str(),
        html_escape(name.as_str()).as_str(),
        "</a></td><td class=\"size\">",
    );
    let d = text::join3(c.as_str(), size.as_str(), "</td><td class=\"date\">");
    text::join3(d.as_str(), date.as_str(), "</td></tr>\n")
}

/// Writes the page that lists the files of a directory.
pub fn generate_directory_listing(entries: &Vec<DirEntry>, request_path: &str, is_root: bool) -> (r:
    String)
    ensures
        r@ == listing(entries.deep_view(), request_path@, is_root),
{
    let es = sort(entries);
    let base = if text::ends_with(request_path, "/") {
        request_path.to_owned()
    } else {
        text::join(request_path, "/")
    };
    let ghost all = es.deep_view();
    let mut rows = String::new();
    assert(rows@ + entry_rows(all, base@, 0) =~= entry_rows(all, base@, 0));
    for i in 0..es.len()
        invariant
            all == es.deep_view(),
            rows@ + entry_rows(all, base@, i as int) == entry_rows(all, base@, 0),
    {
        assert(all[i as int] == es@[i as int].deep_view());
        let row = write_entry(&es[i], base.as_str());
        let ghost before = rows@;
        rows = text::join(rows.as_str(), row.as_str());
        assert(rows@ + entry_rows(all, base@, i + 1) =~= before + (row@ + entry_rows(
            all,
            base@,
            i + 1,
        )));
    }
    assert(rows@ =~= rows@ + entry_rows(all, base@, all.len() as int));
    let p = html_escape(shown_path(request_path).as_str());
    let a = text::join3("<!DOCTYPE html>\n<html lang=\"en\">\n<head>\n<meta charset=\"utf-8\">\n<meta name=\"viewport\" content=\"width=device-width, initial-scale=1.0\">\n<title>Index of ", p.as_str(), "</title>\n<style>\nbody { font-family: -apple-system, BlinkMacSystemFont, 'Segoe UI', Roboto, sans-serif; margin: 2em; color: #333; background: #fafafa; }\nh1 { font-size: 1.4em; font-weight: 600; border-bottom: 1px solid #ddd; padding-bottom: 0.5em; }\ntable { border-collapse: collapse; width: 100%; max-width: 900px; }\nth, td { text-align: left; padding: 6px 16px 6px 0; }\nth { font-size: 0.85em; text-transform: uppercase; color: #666; border-bottom: 2px solid #ddd; }\ntr:hover { background: #f0f0f0; }\na { color: #0366d6; text-decoration: none; }\na:hover { text-decoration: underline; }\n.dir a::before { content: '\\1F4C1 '; }\n.size, .date { color: #666; font-size: 0.9em; }\n</style>\n</head>\n<body>\n<h1>Index of ");
    let b = text::join3(a.as_str(), p.as_str(), "</h1>\n<table>\n<thead><tr><th>Name</th><th>Size</th><th>Modified</th></tr></thead>\n<tbody>\n");
    let c = text::join3(b.as_str(), write_parent(request_path, is_root).as_str(), rows.as_str());
    text::join(c.as_str(), "</tbody>\n</table>\n</body>\n</html>\n")
}

/// The path of the directory above is what stands before the last slash, or the root.
pub proof fn lemma_parent(a: Seq<char>, b: Seq<char>)
    requires
        !b.contains('/'),
    ensures
        parent_path(a + seq!['/'] + b) == if a.len() == 0 {
            seq!['/']
        } else {
            a
        },
{
    reveal_strlit("/");
    assert("/"@ =~= seq!['/']);
    let p = a + seq!['/'] + b;
    text::lemma_last_char_at(p, '/', p.len() as int);
    assert(p[a.len() as int] == '/');
    let i = text::last_char_at(p, '/', p.len() as int)->0;
    if i > a.len() {
        assert(p[i] == b[i - a.len() - 1]);
        assert(b.contains(b[i - a.len() - 1]));
    }
    assert(p.take(i) =~= a);
}

/// The line of a file leads to its name under the directory, so that the name is read
/// back from the link; that of a directory has a slash behind it.
pub proof fn lemma_link(e: DirEntryView, base: Seq<char>)
    requires
        e.name.len() > 0,
    ensures
        !e.is_dir ==> href(e, base) == base + encoding::percent_encoded(e.name),
        e.is_dir ==> href(e, base) == base + encoding::percent_encoded(e.name) + seq!['/'],
        encoding::percent_decoded(encoding::percent_encoded(e.name)) == e.name,
{
    reveal_strlit("/");
    assert("/"@ =~= seq!['/']);
    encoding::lemma_percent_round_trip(e.name);
    encoding::lemma_no_slash(e.name);
    let h = base + encoding::percent_encoded(e.name);
    let n = h.len() as int;
    assert(h.last() == encoding::percent_encoded(e.name).last());
    assert(text::tail(h, text::only('/'), n) == n);
    assert(h.take(n) =~= h);
}

/// In a list the directories come before the files, and each kind in the order of the
/// names; every entry is in it, as often as it was given.
pub proof fn lemma_list_in_order(es: Seq<DirEntryView>)
    ensures
        ranking::sorted::<DirEntry>(es).to_multiset() == es.to_multiset(),
        forall|i: int, j: int|
            #![trigger ranking::sorted::<DirEntry>(es)[i], ranking::sorted::<DirEntry>(es)[j]]
            0 <= i < j < es.len() ==> {
                let (a, b) = (
                    ranking::sorted::<DirEntry>(es)[i],
                    ranking::sorted::<DirEntry>(es)[j],
                );
                &&& b.is_dir ==> a.is_dir
                &&& a.is_dir == b.is_dir ==> !sorted_map::text_before(
                    text::lowered(b.name),
                    text::lowered(a.name),
                )
            },
{
    ranking::lemma_sorted_keeps::<DirEntry>(es);
    assert forall|a: DirEntryView, b: DirEntryView| #[trigger]
        <DirEntry as Ranked>::precedes(a, b) implies !<DirEntry as Ranked>::precedes(b, a) by {
        lemma_names_in_order(text::lowered(a.name), text::lowered(b.name), text::lowered(b.name));
    }
    assert forall|a: DirEntryView, b: DirEntryView, c: DirEntryView|
        !#[trigger] <DirEntry as Ranked>::precedes(b, a) && !#[trigger] <DirEntry as Ranked>::precedes(
            c,
            b,
        ) implies !<DirEntry as Ranked>::precedes(c, a) by {
        lemma_names_in_order(text::lowered(a.name), text::lowered(b.name), text::lowered(c.name));
    }
    ranking::lemma_sorted_in_order::<DirEntry>(es);
    let o = ranking::sorted::<DirEntry>(es);
    assert forall|i: int, j: int|
        #![trigger o[i], o[j]]
        0 <= i < j < es.len() implies (o[j].is_dir ==> o[i].is_dir) && (o[i].is_dir == o[j].is_dir
        ==> !sorted_map::text_before(text::lowered(o[j].name), text::lowered(o[i].name))) by {
        assert(!<DirEntry as Ranked>::precedes(o[j], o[i]));
    }
}

/// The order of texts goes one way only, and is passed on.
proof fn lemma_names_in_order(a: Seq<char>, b: Seq<char>, c: Seq<char>)
    ensures
        sorted_map::text_before(a, b) ==> !sorted_map::text_before(b, a),
        !sorted_map::text_before(b, a) && !sorted_map::text_before(c, b)
            ==> !sorted_map::text_before(c, a),
{
    sorted_map::lemma_text_before_total(a, b);
    sorted_map::lemma_text_before_total(b, c);
    sorted_map::lemma_text_before_total(c, a);
    if sorted_map::text_before(c, a) && sorted_map::text_before(a, b) {
        sorted_map::lemma_text_before_transitive(c, a, b);
    }
    if sorted_map::text_before(b, c) && sorted_map::text_before(c, a) {
        sorted_map::lemma_text_before_transitive(b, c, a);
    }
}

/// Every entry has a line, and the lines stand one after the other.
pub proof fn lemma_every_entry_has_line(es: Seq<DirEntryView>, base: Seq<char>, from: int, i: int)
    requires
        0 <= from <= i < es.len(),
    ensures
        exists|before: Seq<char>| #[trigger]
            (before + entry_row(es[i], base) + entry_rows(es, base, i + 1)) == entry_rows(
                es,
                base,
                from,
            ),
    decreases i - from,
{
    let all = entry_rows(es, base, from);
    if from == i {
        let none = Seq::<char>::empty();
        assert(none + entry_row(es[i], base) + entry_rows(es, base, i + 1) =~= all);
    } else {
        lemma_every_entry_has_line(es, base, from + 1, i);
        let before = choose|before: Seq<char>| #[trigger]
            (before + entry_row(es[i], base) + entry_rows(es, base, i + 1)) == entry_rows(
                es,
                base,
                from + 1,
            );
        let more = entry_row(es[from], base) + before;
        assert(more + entry_row(es[i], base) + entry_rows(es, base, i + 1) =~= all);
    }
}

/// The list of the topmost directory leads to no directory above; that of any other leads to
/// the one above it.
pub proof fn lemma_way_up(path: Seq<char>)
    ensures
        parent_row(path, true).len() == 0,
        display_path(path) == "/"@ ==> parent_row(path, false).len() == 0,
        display_path(path) != "/"@ ==> text::contains(
            parent_row(path, false),
            "href=\""@ + encoding::html_escaped(parent_path(display_path(path))) + "\">..</a>"@,
        ),
{
    reveal_strlit("");
    let h = encoding::html_escaped(parent_path(display_path(path)));
    let a = "<tr class=\"dir\"><td><a href=\""@;
    let b = "\">..</a></td><td class=\"size\">-</td><td class=\"date\">-</td></tr>\n"@;
    reveal_strlit("<tr class=\"dir\"><td><a href=\"");
    reveal_strlit("\">..</a></td><td class=\"size\">-</td><td class=\"date\">-</td></tr>\n");
    reveal_strlit("href=\"");
    reveal_strlit("\">..</a>");
    let p = "href=\""@ + h + "\">..</a>"@;
    assert(a.skip(a.len() - 6) =~= "href=\""@);
    assert(b.take(8) =~= "\">..</a>"@);
    assert(a + h + b =~= a.take(a.len() - 6) + p + b.skip(8));
    text::lemma_contains_put(a.take(a.len() - 6), p, b.skip(8));
}

} // verus!
