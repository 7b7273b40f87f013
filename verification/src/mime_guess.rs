//! Kinds and sizes of files.

use vstd::prelude::*;
use crate::text;

verus! {

/// The content type of files whose names end in an extension.
pub open spec fn content_type(ext: Seq<char>) -> Seq<char> {
    if ext == "html"@ || ext == "htm"@ {
        "text/html; charset=utf-8"@
    } else if ext == "css"@ {
        "text/css; charset=utf-8"@
    } else if ext == "js"@ || ext == "mjs"@ {
        "application/javascript; charset=utf-8"@
    } else if ext == "json"@ {
        "application/json"@
    } else if ext == "xml"@ {
        "application/xml"@
    } else if ext == "txt"@ {
        "text/plain; charset=utf-8"@
    } else if ext == "md"@ {
        "text/markdown; charset=utf-8"@
    } else if ext == "csv"@ {
        "text/csv; charset=utf-8"@
    } else if ext == "svg"@ {
        "image/svg+xml"@
    } else if ext == "png"@ {
        "image/png"@
    } else if ext == "jpg"@ || ext == "jpeg"@ {
        "image/jpeg"@
    } else if ext == "gif"@ {
        "image/gif"@
    } else if ext == "webp"@ {
        "image/webp"@
    } else if ext == "avif"@ {
        "image/avif"@
    } else if ext == "ico"@ {
        "image/x-icon"@
    } else if ext == "woff"@ {
        "font/woff"@
    } else if ext == "woff2"@ {
        "font/woff2"@
    } else if ext == "ttf"@ {
        "font/ttf"@
    } else if ext == "otf"@ {
        "font/otf"@
    } else if ext == "mp3"@ {
        "audio/mpeg"@
    } else if ext == "ogg"@ {
        "audio/ogg"@
    } else if ext == "wav"@ {
        "audio/wav"@
    } else if ext == "mp4"@ {
        "video/mp4"@
    } else if ext == "webm"@ {
        "video/webm"@
    } else if ext == "pdf"@ {
        "application/pdf"@
    } else if ext == "zip"@ {
        "application/zip"@
    } else if ext == "gz"@ {
        "application/gzip"@
    } else if ext == "wasm"@ {
        "application/wasm"@
    } else {
        "application/octet-stream"@
    }
}

/// The content type of files whose names end in an extension, in small letters.
pub fn mime_from_extension(ext: &str) -> (r: &'static str)
    ensures
        r@ == content_type(ext@),
{
    if text::same(ext, "html") || text::same(ext, "htm") {
        "text/html; charset=utf-8"
    } else if text::same(ext, "css") {
        "text/css; charset=utf-8"
    } else if text::same(ext, "js") || text::same(ext, "mjs") {
        "application/javascript; charset=utf-8"
    } else if text::same(ext, "json") {
        "application/json"
    } else if text::same(ext, "xml") {
        "application/xml"
    } else if text::same(ext, "txt") {
        "text/plain; charset=utf-8"
    } else if text::same(ext, "md") {
        "text/markdown; charset=utf-8"
    } else if text::same(ext, "csv") {
        "text/csv; charset=utf-8"
    } else if text::same(ext, "svg") {
        "image/svg+xml"
    } else if text::same(ext, "png") {
        "image/png"
    } else if text::same(ext, "jpg") || text::same(ext, "jpeg") {
        "image/jpeg"
    } else if text::same(ext, "gif") {
        "image/gif"
    } else if text::same(ext, "webp") {
        "image/webp"
    } else if text::same(ext, "avif") {
        "image/avif"
    } else if text::same(ext, "ico") {
        "image/x-icon"
    } else if text::same(ext, "woff") {
        "font/woff"
    } else if text::same(ext, "woff2") {
        "font/woff2"
    } else if text::same(ext, "ttf") {
        "font/ttf"
    } else if text::same(ext, "otf") {
        "font/otf"
    } else if text::same(ext, "mp3") {
        "audio/mpeg"
    } else if text::same(ext, "ogg") {
        "audio/ogg"
    } else if text::same(ext, "wav") {
        "audio/wav"
    } else if text::same(ext, "mp4") {
        "video/mp4"
    } else if text::same(ext, "webm") {
        "video/webm"
    } else if text::same(ext, "pdf") {
        "application/pdf"
    } else if text::same(ext, "zip") {
        "application/zip"
    } else if text::same(ext, "gz") {
        "application/gzip"
    } else if text::same(ext, "wasm") {
        "application/wasm"
    } else {
        "application/octet-stream"
    }
}

/// The name of a file without the directories before it.
pub open spec fn file_name(path: Seq<char>) -> Seq<char> {
    match text::last_char_at(path, '/', path.len() as int) {
        Some(i) => path.skip(i + 1),
        None => path,
    }
}

/// What stands behind the last dot in the name of a file; nothing where there is no
/// dot, or only one at the front.
pub open spec fn extension(path: Seq<char>) -> Seq<char> {
    let name = file_name(path);
    match text::last_char_at(name, '.', name.len() as int) {
        Some(i) if i > 0 => name.skip(i + 1),
        _ => seq![],
    }
}

/// What stands behind the last dot in the name of a file.
pub fn extension_of(path: &str) -> (r: String)
    ensures
        r@ == extension(path@),
{
    let v = text::chars(path);
    let from: usize = match text::rfind_char_in(v.as_slice(), '/') {
        Some(i) => i + 1,
        None => 0,
    };
    let name = text::string_of(v.as_slice(), from, v.len());
    assert(name@ =~= file_name(path@));
    let w = text::chars(name.as_str());
    match text::rfind_char_in(w.as_slice(), '.') {
        Some(i) => if i > 0 {
            let e = text::string_of(w.as_slice(), i + 1, w.len());
            assert(e@ =~= name@.skip(i + 1));
            e
        } else {
            let e = String::new();
            assert(e@ =~= seq![]);
            e
        },
        None => {
            let e = String::new();
            assert(e@ =~= seq![]);
            e
        },
    }
}

/// The content type of a file.
pub open spec fn type_of_path(path: Seq<char>) -> Seq<char> {
    content_type(text::lowered(extension(path)))
}

/// The content type of a file.
pub fn mime_from_path(path: &str) -> (r: &'static str)
    ensures
        r@ == type_of_path(path@),
{
    mime_from_extension(text::to_lower(extension_of(path).as_str()).as_str())
}

/// A number of units of `unit` bytes, to one place behind the point.
pub open spec fn in_units(size: u64, unit: nat, name: Seq<char>) -> Seq<char> {
    let tenths = ((size * 10 + unit / 2) / unit as int) as nat;
    text::decimal(tenths / 10) + "."@ + text::decimal(tenths % 10) + name
}

/// The size of a file in words.
pub open spec fn size_text(size: u64) -> Seq<char> {
    if size < 1024 {
        text::decimal(size as nat) + " B"@
    } else if size < 1_048_576 {
        in_units(size, 1024, " KB"@)
    } else if size < 1_073_741_824 {
        in_units(size, 1_048_576, " MB"@)
    } else {
        in_units(size, 1_073_741_824, " GB"@)
    }
}

/// A number of units of `unit` bytes, to one place behind the point.
fn write_units(size: u64, unit: u64, name: &str) -> (r: String)
    requires
        unit > 0,
    ensures
        r@ == in_units(size, unit as nat, name@),
{
    let tenths: u128 = (size as u128 * 10 + (unit / 2) as u128) / unit as u128;
    let s = text::join3(
        text::number_text(tenths / 10).as_str(),
        ".",
        text::number_text(tenths % 10).as_str(),
    );
    text::join(s.as_str(), name)
}

/// The size of a file in words.
pub fn format_size(size: u64) -> (r: String)
    ensures
        r@ == size_text(size),
{
    if size < 1024 {
        text::join(text::number_text(size as u128).as_str(), " B")
    } else if size < 1_048_576 {
        write_units(size, 1024, " KB")
    } else if size < 1_073_741_824 {
        write_units(size, 1_048_576, " MB")
    } else {
        write_units(size, 1_073_741_824, " GB")
    }
}

/// The extension of a file is what stands behind the last dot of its name, whatever
/// directories stand before; a name without a dot, or with one at its front alone, has none.
pub proof fn lemma_extension(dir: Seq<char>, name: Seq<char>, ext: Seq<char>)
    requires
        !name.contains('/'),
        !ext.contains('/') && !ext.contains('.'),
        name.len() > 0,
    ensures
        extension(name + seq!['.'] + ext) == ext,
        extension(dir + seq!['/'] + (name + seq!['.'] + ext)) == ext,
        !name.contains('.') ==> extension(dir + seq!['/'] + name).len() == 0,
        extension(dir + seq!['/'] + (seq!['.'] + ext)).len() == 0,
{
    let full = name + seq!['.'] + ext;
    let hidden = seq!['.'] + ext;
    assert(!full.contains('/')) by {
        if full.contains('/') {
            let i = choose|i: int| 0 <= i < full.len() && full[i] == '/';
            if i < name.len() {
                assert(name.contains(name[i]));
            } else if i > name.len() {
                assert(ext.contains(ext[i - name.len() - 1]));
            }
        }
    }
    assert(!hidden.contains('/')) by {
        if hidden.contains('/') {
            let i = choose|i: int| 0 <= i < hidden.len() && hidden[i] == '/';
            assert(ext.contains(ext[i - 1]));
        }
    }
    lemma_file_name(dir, full);
    lemma_file_name(dir, name);
    lemma_file_name(dir, hidden);
    text::lemma_last_char_at(full, '.', full.len() as int);
    assert(full[name.len() as int] == '.');
    let i = text::last_char_at(full, '.', full.len() as int)->0;
    if i > name.len() {
        assert(full[i] == ext[i - name.len() - 1]);
        assert(ext.contains(ext[i - name.len() - 1]));
    }
    assert(full.skip(i + 1) =~= ext);
    text::lemma_last_char_at(name, '.', name.len() as int);
    if let Some(j) = text::last_char_at(name, '.', name.len() as int) {
        assert(name.contains(name[j]));
    }
    text::lemma_last_char_at(hidden, '.', hidden.len() as int);
    assert(hidden[0] == '.');
    let j = text::last_char_at(hidden, '.', hidden.len() as int)->0;
    if j > 0 {
        assert(hidden[j] == ext[j - 1]);
        assert(ext.contains(ext[j - 1]));
    }
}

/// The name of a file stands behind the last slash.
proof fn lemma_file_name(dir: Seq<char>, name: Seq<char>)
    requires
        !name.contains('/'),
    ensures
        file_name(dir + seq!['/'] + name) == name,
        file_name(name) == name,
{
    let p = dir + seq!['/'] + name;
    text::lemma_last_char_at(p, '/', p.len() as int);
    assert(p[dir.len() as int] == '/');
    let i = text::last_char_at(p, '/', p.len() as int)->0;
    if i > dir.len() {
        assert(p[i] == name[i - dir.len() - 1]);
        assert(name.contains(name[i - dir.len() - 1]));
    }
    assert(p.skip(i + 1) =~= name);
    text::lemma_last_char_at(name, '/', name.len() as int);
    if let Some(j) = text::last_char_at(name, '/', name.len() as int) {
        assert(name.contains(name[j]));
    }
}

/// Sizes below a kilobyte are written in bytes.
pub proof fn lemma_small_sizes(n: u64)
    requires
        n < 1024,
    ensures
        size_text(n) == text::decimal(n as nat) + seq![' ', 'B'],
{
    reveal_strlit(" B");
    assert(" B"@ =~= seq![' ', 'B']);
}

/// A text gives a size in tenths of a unit, to the nearest tenth.
pub open spec fn nearest_tenths(s: Seq<char>, size: u64, unit: int, name: Seq<char>, t: nat) -> bool {
    &&& s == text::decimal(t / 10) + seq!['.'] + text::decimal(t % 10) + name
    &&& -unit <= 2 * (size * 10 - t * unit) <= unit
}

/// Sizes from a kilobyte on are written to the nearest tenth of the greatest unit that is not
/// greater than they are: kilobytes, megabytes or gigabytes.
pub proof fn lemma_great_sizes(n: u64)
    ensures
        0x400 <= n < 0x10_0000 ==> exists|t: nat|
            nearest_tenths(size_text(n), n, 0x400, seq![' ', 'K', 'B'], t),
        0x10_0000 <= n < 0x4000_0000 ==> exists|t: nat|
            nearest_tenths(size_text(n), n, 0x10_0000, seq![' ', 'M', 'B'], t),
        0x4000_0000 <= n ==> exists|t: nat|
            nearest_tenths(size_text(n), n, 0x4000_0000, seq![' ', 'G', 'B'], t),
{
    reveal_strlit(" KB");
    reveal_strlit(" MB");
    reveal_strlit(" GB");
    reveal_strlit(".");
    assert("."@ =~= seq!['.']);
    assert(" KB"@ =~= seq![' ', 'K', 'B']);
    assert(" MB"@ =~= seq![' ', 'M', 'B']);
    assert(" GB"@ =~= seq![' ', 'G', 'B']);
    let k = ((n * 10 + 512) / 1024) as nat;
    let m = ((n * 10 + 524_288) / 1_048_576) as nat;
    let g = ((n * 10 + 536_870_912) / 1_073_741_824) as nat;
    if 0x400 <= n < 0x10_0000 {
        assert(nearest_tenths(size_text(n), n, 0x400, seq![' ', 'K', 'B'], k));
    } else if 0x10_0000 <= n < 0x4000_0000 {
        assert(nearest_tenths(size_text(n), n, 0x10_0000, seq![' ', 'M', 'B'], m));
    } else if 0x4000_0000 <= n {
        assert(nearest_tenths(size_text(n), n, 0x4000_0000, seq![' ', 'G', 'B'], g));
    }
}

} // verus!
