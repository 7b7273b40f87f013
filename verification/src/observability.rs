//! Where the server writes what it does.

use vstd::prelude::*;
use crate::hoops::logging;
use crate::hoops::logging::RotationStep;
use crate::text;

verus! {

/// A file of the log that is rotated when it has grown to a size.
#[derive(Debug, PartialEq, Eq)]
pub struct LogfileBackend {
    pub path: String,
    /// The size at which it is rotated; zero for never.
    pub rotate_size: u64,
    pub rotate_keep: usize,
    pub bytes_written: u64,
}

/// What is done with the old files with the numbers below `n`: each gets the next number.
pub open spec fn shifts_below(n: nat) -> Seq<RotationStep>
    decreases n,
{
    if n <= 1 {
        seq![]
    } else {
        seq![RotationStep::Rename { from: (n - 1) as usize, to: n as usize }] + shifts_below(
            (n - 1) as nat,
        )
    }
}

/// What is done to rotate the files, each step where its file exists: the old files get
/// the next number, the oldest is removed, and the file in use becomes the first old one.
/// The file in use has the number 0, so that it is the one that is removed where no old
/// file is to be kept.
pub open spec fn rotation(keep: usize) -> Seq<RotationStep> {
    shifts_below(keep as nat) + seq![
        RotationStep::Remove(keep),
        RotationStep::Rename { from: 0, to: 1 },
    ]
}

/// A file is as long as it may be; without a limit it never is.
pub open spec fn is_full(size: u64, limit: u64) -> bool {
    limit > 0 && size >= limit
}

impl LogfileBackend {
    /// The file at the path, which holds a number of bytes already.
    pub fn new(path: String, rotate_size: u64, rotate_keep: usize, bytes_written: u64) -> (b:
        LogfileBackend)
        ensures
            b == (LogfileBackend { path, rotate_size, rotate_keep, bytes_written }),
    {
        LogfileBackend { path, rotate_size, rotate_keep, bytes_written }
    }

    /// Notes that a line was written with its end. Tells whether the files are to be
    /// rotated.
    pub fn write_line(&mut self, line: &str) -> (rotate: bool)
        requires
            old(self).bytes_written + vstd::utf8::encode_utf8(line@).len() + 1 <= u64::MAX,
        ensures
            *final(self) == (LogfileBackend {
                bytes_written: (old(self).bytes_written + vstd::utf8::encode_utf8(line@).len() + 1)
                    as u64,
                ..*old(self)
            }),
            rotate == is_full(final(self).bytes_written, old(self).rotate_size),
    {
        self.bytes_written = self.bytes_written + text::byte_len(line) as u64 + 1;
        self.rotate_size > 0 && self.bytes_written >= self.rotate_size
    }

    /// What is done to rotate the files.
    pub fn rotate(&mut self) -> (r: Vec<RotationStep>)
        ensures
            r@ == rotation(old(self).rotate_keep),
            *final(self) == (LogfileBackend { bytes_written: 0, ..*old(self) }),
    {
        self.bytes_written = 0;
        let keep: usize = self.rotate_keep;
        let mut steps = shifts(keep);
        let ghost first = steps@;
        steps.push(RotationStep::Remove(keep));
        steps.push(RotationStep::Rename { from: 0, to: 1 });
        assert(steps@ =~= first + seq![
            RotationStep::Remove(keep),
            RotationStep::Rename { from: 0, to: 1 },
        ]);
        steps
    }
}

/// Lists what is done with the old files with the numbers below `keep`.
fn shifts(keep: usize) -> (r: Vec<RotationStep>)
    ensures
        r@ == shifts_below(keep as nat),
{
    let mut steps: Vec<RotationStep> = Vec::new();
    let mut n: usize = keep;
    assert(steps@ + shifts_below(n as nat) =~= shifts_below(keep as nat));
    while n > 1
        invariant
            n <= keep,
            steps@ + shifts_below(n as nat) == shifts_below(keep as nat),
        decreases n,
    {
        let ghost before = steps@;
        let step = RotationStep::Rename { from: n - 1, to: n };
        steps.push(step);
        assert(steps@ + shifts_below((n - 1) as nat) =~= before + (seq![step] + shifts_below(
            (n - 1) as nat,
        )));
        n = n - 1;
    }
    assert(steps@ + shifts_below(n as nat) =~= steps@);
    steps
}

/// The files after a step that is taken where its file exists.
pub open spec fn after_step<A>(files: Map<int, A>, s: RotationStep) -> Map<int, A> {
    match s {
        RotationStep::Remove(n) => files.remove(n as int),
        RotationStep::Rename { from, to } => if files.contains_key(from as int) {
            files.remove(from as int).insert(to as int, files[from as int])
        } else {
            files
        },
    }
}

/// The files after the steps from `i` on.
pub open spec fn after_steps<A>(files: Map<int, A>, s: Seq<RotationStep>, i: int) -> Map<int, A>
    decreases s.len() - i,
{
    if i < 0 || i >= s.len() {
        files
    } else {
        after_steps(after_step(files, s[i]), s, i + 1)
    }
}

/// Steps one after the other.
proof fn lemma_after_both<A>(files: Map<int, A>, s: Seq<RotationStep>, t: Seq<RotationStep>, i: int)
    requires
        0 <= i <= s.len(),
    ensures
        after_steps(files, s + t, i) == after_steps(after_steps(files, s, i), t, 0),
    decreases s.len() - i,
{
    if i < s.len() {
        assert((s + t)[i] == s[i]);
        lemma_after_both(after_step(files, s[i]), s, t, i + 1);
    } else {
        lemma_after_behind(files, s, t, 0);
    }
}

/// The steps behind others.
proof fn lemma_after_behind<A>(
    files: Map<int, A>,
    s: Seq<RotationStep>,
    t: Seq<RotationStep>,
    k: int,
)
    requires
        0 <= k <= t.len(),
    ensures
        after_steps(files, s + t, s.len() + k) == after_steps(files, t, k),
    decreases t.len() - k,
{
    if k < t.len() {
        assert((s + t)[s.len() + k] == t[k]);
        lemma_after_behind(after_step(files, t[k]), s, t, k + 1);
    }
}

/// After the shifts, no file has a number beyond the highest that a shift gives, where
/// none had before.
proof fn lemma_shifts_bounded<A>(files: Map<int, A>, n: nat, top: int)
    requires
        n <= top <= usize::MAX,
        forall|i: int| #[trigger] files.contains_key(i) ==> 0 <= i <= top,
    ensures
        forall|i: int| #[trigger]
            after_steps(files, shifts_below(n), 0).contains_key(i) ==> 0 <= i <= top,
    decreases n,
{
    if n > 1 {
        let step = RotationStep::Rename { from: (n - 1) as usize, to: n as usize };
        let rest = shifts_below((n - 1) as nat);
        let one = seq![step];
        lemma_after_both(files, one, rest, 0);
        let g = after_step(files, step);
        assert(after_steps(files, one, 0) == after_steps(g, one, 1));
        assert(after_steps(g, one, 1) == g);
        lemma_shifts_bounded(g, (n - 1) as nat, top);
    }
}

/// A rotation leaves no file at the place of the one in use, puts that in the place of
/// the first old one, and leaves no more old files than are to be kept. Where none is to
/// be kept, no file is left.
pub proof fn lemma_rotation<A>(files: Map<int, A>, keep: usize)
    requires
        forall|i: int| #[trigger] files.contains_key(i) ==> 0 <= i <= keep,
        files.contains_key(0),
    ensures
        ({
            let f = after_steps(files, rotation(keep), 0);
            &&& !f.contains_key(0)
            &&& keep > 0 ==> f.contains_key(1) && f[1] == files[0]
            &&& forall|i: int| #[trigger] f.contains_key(i) ==> 1 <= i <= keep
        }),
{
    let s = shifts_below(keep as nat);
    let t = seq![RotationStep::Remove(keep), RotationStep::Rename { from: 0, to: 1 }];
    lemma_after_both(files, s, t, 0);
    lemma_shifts_bounded(files, keep as nat, keep as int);
    lemma_shifts_keep_current(files, keep as nat);
    let g = after_steps(files, s, 0);
    let h = after_step(g, t[0]);
    let f = after_step(h, t[1]);
    assert(after_steps(g, t, 0) == after_steps(h, t, 1));
    assert(after_steps(h, t, 1) == after_steps(f, t, 2));
    assert(after_steps(f, t, 2) == f);
}

/// The shifts leave the file in use where it is.
proof fn lemma_shifts_keep_current<A>(files: Map<int, A>, n: nat)
    requires
        files.contains_key(0),
        n <= usize::MAX,
    ensures
        after_steps(files, shifts_below(n), 0).contains_key(0),
        after_steps(files, shifts_below(n), 0)[0] == files[0],
    decreases n,
{
    if n > 1 {
        let step = RotationStep::Rename { from: (n - 1) as usize, to: n as usize };
        let rest = shifts_below((n - 1) as nat);
        let one = seq![step];
        lemma_after_both(files, one, rest, 0);
        let g = after_step(files, step);
        assert(after_steps(files, one, 0) == after_steps(g, one, 1));
        assert(after_steps(g, one, 1) == g);
        lemma_shifts_keep_current(g, (n - 1) as nat);
    }
}

/// Where lines are written.
#[derive(Clone, Copy, Debug, PartialEq, Eq, Structural)]
pub enum StdlogOutput {
    Stdout,
    Stderr,
}

/// Writes lines to one of the standard outputs, as JSON or as plain text.
#[derive(Clone, Copy, Debug, PartialEq, Eq)]
pub struct StdlogBackend {
    pub output: StdlogOutput,
    pub json: bool,
}

/// A character as JSON writes it within a text.
pub open spec fn json_char(c: char) -> Seq<char> {
    if c == '"' {
        seq!['\\', '"']
    } else if c == '\\' {
        seq!['\\', '\\']
    } else if c == '\n' {
        seq!['\\', 'n']
    } else if c == '\r' {
        seq!['\\', 'r']
    } else if c == '\t' {
        seq!['\\', 't']
    } else if is_control(c) {
        seq!['\\', 'u', '0', '0', text::hex_digit(c as u32 as nat / 16), text::hex_digit(c as u32 as nat % 16)]
    } else {
        seq![c]
    }
}

/// A control character.
pub open spec fn is_control(c: char) -> bool {
    (c as u32) < 32 || 127 <= (c as u32) <= 159
}

/// The characters from `i` on as JSON writes them within a text.
pub open spec fn json_chars(s: Seq<char>, i: int) -> Seq<char>
    decreases s.len() - i,
{
    if i < 0 || i >= s.len() {
        seq![]
    } else {
        json_char(s[i]) + json_chars(s, i + 1)
    }
}

/// A text as JSON writes it.
pub open spec fn json_text(s: Seq<char>) -> Seq<char> {
    seq!['"'] + json_chars(s, 0) + seq!['"']
}

/// The digit of a number below sixteen.
fn digit_of(n: u32) -> (c: char)
    requires
        n < 16,
    ensures
        c == text::hex_digit(n as nat),
{
    if n < 10 {
        (n as u8 + 48) as char
    } else {
        (n as u8 + 87) as char
    }
}

/// Appends a character as JSON writes it within a text.
fn push_json_char(out: &mut String, c: char)
    ensures
        final(out)@ == old(out)@ + json_char(c),
{
    let ghost start = out@;
    if c == '"' || c == '\\' {
        out.push('\\');
        out.push(c);
    } else if c == '\n' {
        out.push('\\');
        out.push('n');
    } else if c == '\r' {
        out.push('\\');
        out.push('r');
    } else if c == '\t' {
        out.push('\\');
        out.push('t');
    } else {
        let n: u32 = c as u32;
        if n < 32 || (127 <= n && n <= 159) {
            out.push('\\');
            out.push('u');
            out.push('0');
            out.push('0');
            out.push(digit_of(n / 16));
            out.push(digit_of(n % 16));
        } else {
            out.push(c);
        }
    }
    assert(out@ =~= start + json_char(c));
}

/// Writes a text as JSON does.
pub fn json_escape(s: &str) -> (r: String)
    ensures
        r@ == json_text(s@),
{
    let v = text::chars(s);
    let mut out = String::new();
    out.push('"');
    assert(out@ =~= seq!['"']);
    for i in 0..v.len()
        invariant
            v@ == s@,
            out@ + json_chars(s@, i as int) == seq!['"'] + json_chars(s@, 0),
    {
        let ghost before = out@;
        push_json_char(&mut out, v[i]);
        assert(out@ + json_chars(s@, i + 1) =~= before + (json_char(s@[i as int]) + json_chars(
            s@,
            i + 1,
        )));
    }
    assert(out@ + json_chars(s@, s@.len() as int) =~= out@);
    let ghost before = out@;
    out.push('"');
    assert(out@ =~= before + seq!['"']);
    out
}

/// A line of the log.
pub open spec fn entry_line(json: bool, secs: u64, level: Seq<char>, message: Seq<char>) -> Seq<
    char,
> {
    if json {
        "{\"timestamp\":\""@ + text::decimal(secs as nat) + "\",\"level\":\""@ + level
            + "\",\"message\":"@ + json_text(message) + "}"@
    } else {
        "["@ + level + "] "@ + message
    }
}

impl StdlogBackend {
    /// Writes to one of the standard outputs.
    pub fn new(output: StdlogOutput, json: bool) -> (b: StdlogBackend)
        ensures
            b == (StdlogBackend { output, json }),
    {
        StdlogBackend { output, json }
    }

    /// The line for an entry at a time in seconds since the epoch.
    pub fn write_entry(&self, level: &str, message: &str, secs: u64) -> (r: String)
        ensures
            r@ == entry_line(self.json, secs, level@, message@),
    {
        if self.json {
            let mut out = "{\"timestamp\":\"".to_owned();
            out.append(text::number_text(secs as u128).as_str());
            out.append("\",\"level\":\"");
            out.append(level);
            out.append("\",\"message\":");
            out.append(json_escape(message).as_str());
            out.append("}");
            out
        } else {
            let mut out = "[".to_owned();
            out.append(level);
            out.append("] ");
            out.append(message);
            out
        }
    }
}

/// A digit is no control character.
proof fn lemma_digit_is_plain(n: nat)
    requires
        n < 16,
    ensures
        !is_control(text::hex_digit(n)),
{
    assert(text::hex_digit(n) as u32 == if n < 10 {
        n + 48
    } else {
        n + 87
    });
}

/// A text as JSON writes it holds no line end and no control character.
pub proof fn lemma_json_is_plain(s: Seq<char>, i: int, c: char)
    requires
        0 <= i,
        json_chars(s, i).contains(c),
    ensures
        !is_control(c),
    decreases s.len() - i,
{
    if i < s.len() {
        let (a, b) = (json_char(s[i]), json_chars(s, i + 1));
        let k = choose|k: int| 0 <= k < (a + b).len() && (a + b)[k] == c;
        if k >= a.len() {
            assert(b[k - a.len()] == c);
            lemma_json_is_plain(s, i + 1, c);
        } else {
            assert(a[k] == c);
            if is_control(s[i]) {
                lemma_digit_is_plain(s[i] as u32 as nat / 16);
                lemma_digit_is_plain(s[i] as u32 as nat % 16);
            }
        }
    }
}

/// A file is full from its limit on, and never where there is no limit.
pub proof fn lemma_full_at_limit(size: u64, limit: u64)
    ensures
        limit > 0 ==> (is_full(size, limit) <==> size >= limit),
        !is_full(size, 0),
{
}

/// A rotation gives every old file the next number, as long as that is to be kept.
pub proof fn lemma_old_files_move_up<A>(files: Map<int, A>, keep: usize, i: int)
    requires
        1 <= i < keep,
        forall|j: int| #[trigger] files.contains_key(j) ==> 0 <= j < keep,
        files.contains_key(0),
        files.contains_key(i),
    ensures
        i + 1 < keep ==> after_steps(files, rotation(keep), 0).contains_key(i + 1) && after_steps(
            files,
            rotation(keep),
            0,
        )[i + 1] == files[i],
{
    let s = shifts_below(keep as nat);
    let t = seq![RotationStep::Remove(keep), RotationStep::Rename { from: 0, to: 1 }];
    lemma_after_both(files, s, t, 0);
    lemma_shifted(files, keep as nat, i);
    let g = after_steps(files, s, 0);
    let h = after_step(g, t[0]);
    let f = after_step(h, t[1]);
    assert(after_steps(g, t, 0) == after_steps(h, t, 1));
    assert(after_steps(h, t, 1) == after_steps(f, t, 2));
    assert(after_steps(f, t, 2) == f);
}

/// The shifts give a file the next number, and do not touch those beyond.
proof fn lemma_shifted<A>(files: Map<int, A>, n: nat, i: int)
    requires
        n <= usize::MAX,
        1 <= i,
        files.contains_key(i),
    ensures
        i < n ==> after_steps(files, shifts_below(n), 0).contains_key(i + 1) && after_steps(
            files,
            shifts_below(n),
            0,
        )[i + 1] == files[i],
        i >= n ==> (i > n || n <= 1 ==> after_steps(files, shifts_below(n), 0).contains_key(i)
            && after_steps(files, shifts_below(n), 0)[i] == files[i]),
    decreases n,
{
    if n > 1 {
        let step = RotationStep::Rename { from: (n - 1) as usize, to: n as usize };
        let rest = shifts_below((n - 1) as nat);
        let one = seq![step];
        lemma_after_both(files, one, rest, 0);
        let g = after_step(files, step);
        assert(after_steps(files, one, 0) == after_steps(g, one, 1));
        assert(after_steps(g, one, 1) == g);
        if i == n - 1 {
            lemma_shifted(g, (n - 1) as nat, n as int);
        } else if i != n {
            lemma_shifted(g, (n - 1) as nat, i);
        }
    }
}

} // verus!
