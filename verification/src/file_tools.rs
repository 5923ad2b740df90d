//! The file and shell tools: what they answer once the file is read or
//! written, or the command has run. The file system and the process are
//! the caller's part.
use vstd::prelude::*;
use vstd::string::StringSliceAdditionalSpecFns;
use vstd::utf8::{decode_utf8, encode_utf8, encode_utf8_decode_utf8, is_char_boundary, valid_utf8};
use crate::codec::{spec_utf8_lossy, utf8_lossy};
use crate::diff_edit::{lines_of, lines_vec};
use crate::text::{chars_of, chars_range, decimal, decimal_string, string_of, utf8_len, words_view};

verus! {

/// Arguments of the file reading tool (lines counted from 1).
#[derive(Debug, Clone)]
pub struct ReadFileArgs {
    pub path: String,
    pub start: Option<usize>,
    pub end: Option<usize>,
}

/// Arguments of the file writing tool (byte offsets into `content`).
#[derive(Debug, Clone)]
pub struct WriteFileArgs {
    pub path: String,
    pub content: String,
    pub start: Option<usize>,
    pub end: Option<usize>,
}

/// Arguments of the shell tool.
#[derive(Debug, Clone)]
pub struct ShellArgs {
    pub command: String,
}

/// Arguments of the tool that reads an agent's inbox.
#[derive(Debug, Clone, Copy)]
pub struct ReadMessagesArgs {
    pub max: Option<usize>,
}

/// Arguments of the tool that lists agents.
#[derive(Debug, Clone, Copy)]
pub struct ListAgentsArgs {}

/// The shown line range `(first, end)` (0-based, end excluded) of a file
/// of `total` lines for the requested 1-based `start` and `end`.
pub open spec fn line_window(total: usize, start: Option<usize>, end: Option<usize>) -> (int, int) {
    let s = match start {
        Some(k) => k,
        None => 1usize,
    };
    let s0 = if s >= 1 {
        s - 1
    } else {
        0
    };
    let last = if total >= 1 {
        total - 1
    } else {
        0
    };
    let first = if s0 <= last {
        s0
    } else {
        last
    };
    let e = match end {
        Some(k) => k,
        None => total,
    };
    (first, if e <= total {
        e as int
    } else {
        total as int
    })
}

/// The window of lines shown: without an end it reaches the last line of
/// the file; with one it stops there, or at the last line if the file is
/// shorter. Without a start it begins at the first line; a start within the
/// file begins at that line, and one past the end at the last line; it
/// never begins past the last line.
pub proof fn lemma_window_reach(total: usize, start: Option<usize>, end: Option<usize>)
    ensures
        end is None ==> line_window(total, start, end).1 == total,
        end is Some ==> line_window(total, start, end).1 == (if end->0 <= total {
            end->0 as int
        } else {
            total as int
        }),
        start is None ==> line_window(total, start, end).0 == 0,
        start is Some && 1 <= start->0 <= total ==> line_window(total, start, end).0 == start->0 - 1,
        start is Some && start->0 > total && total > 0 ==> line_window(total, start, end).0 == total - 1,
        0 <= line_window(total, start, end).0,
        total > 0 ==> line_window(total, start, end).0 < total,
        total == 0 ==> line_window(total, start, end).0 == 0,
{
}

/// Lines joined with newlines.
pub open spec fn joined(ls: Seq<Seq<char>>) -> Seq<char>
    decreases ls.len(),
{
    if ls.len() == 0 {
        Seq::empty()
    } else if ls.len() == 1 {
        ls[0]
    } else {
        joined(ls.drop_last()) + "\n"@ + ls.last()
    }
}

/// What the reading tool answers for a file: a header with the line and
/// byte counts, then the whole text, or for a file over 10000 bytes only the
/// requested lines and a note.
pub open spec fn read_report(path: Seq<char>, content: Seq<char>, start: Option<usize>, end: Option<usize>) -> Seq<char> {
    let ls = lines_of(content);
    let total = ls.len();
    let bytes = utf8_len(content);
    let (first, last) = line_window(total as usize, start, end);
    let preview = if bytes > 10000 {
        long_preview(ls, first, last)
    } else {
        content
    };
    "(file: "@ + path + ", "@ + decimal(total) + " lines, "@ + decimal(bytes as nat) + " bytes)\n\n"@ + preview
}

/// The requested range of a long file is not reversed.
pub open spec fn read_window_ok(content: Seq<char>, start: Option<usize>, end: Option<usize>) -> bool {
    let (first, last) = line_window(lines_of(content).len() as usize, start, end);
    utf8_len(content) > 10000 ==> first <= last
}

fn join_lines(ls: &Vec<Vec<char>>, a: usize, b: usize) -> (s: String)
    requires
        a <= b <= ls@.len(),
    ensures
        s@ == joined(words_view(ls@).subrange(a as int, b as int)),
{
    let mut s = String::new();
    let mut i = a;
    while i < b
        invariant
            a <= i <= b,
            b <= ls@.len(),
            s@ == joined(words_view(ls@).subrange(a as int, i as int)),
        decreases b - i,
    {
        let ghost prev = words_view(ls@).subrange(a as int, i as int);
        let line = string_of(ls[i].as_slice());
        if i > a {
            s.append("\n");
        }
        s.append(line.as_str());
        proof {
            let next = words_view(ls@).subrange(a as int, i + 1);
            assert(next.drop_last() =~= prev);
            assert(next.last() == ls@[i as int]@);
            if i == a {
                assert(prev.len() == 0);
                assert(s@ =~= next[0]);
            }
        }
        i += 1;
    }
    s
}

fn window(total: usize, start: Option<usize>, end: Option<usize>) -> (r: (usize, usize))
    ensures
        (r.0 as int, r.1 as int) == line_window(total, start, end),
{
    let s = match start {
        Some(k) => k,
        None => 1,
    };
    let s0 = if s >= 1 {
        s - 1
    } else {
        0
    };
    let last = if total >= 1 {
        total - 1
    } else {
        0
    };
    let first = if s0 <= last {
        s0
    } else {
        last
    };
    let e = match end {
        Some(k) => k,
        None => total,
    };
    let stop = if e <= total {
        e
    } else {
        total
    };
    (first, stop)
}

/// The preview of a long file: the chosen lines and the truncation note.
pub open spec fn long_preview(ls: Seq<Seq<char>>, first: int, last: int) -> Seq<char> {
    joined(ls.subrange(first, last)) + "\n\n... [truncated, "@ + decimal(ls.len()) + " total lines, showing "@
        + decimal((first + 1) as nat) + "--"@ + decimal(last as nat) + "]"@
}

fn long_preview_text(ls: &Vec<Vec<char>>, first: usize, stop: usize) -> (r: String)
    requires
        first <= stop <= ls@.len(),
        first == 0 || first < ls@.len(),
    ensures
        r@ == long_preview(words_view(ls@), first as int, stop as int),
{
    let mut r = join_lines(ls, first, stop);
    r.append("\n\n... [truncated, ");
    r.append(decimal_string(ls.len()).as_str());
    r.append(" total lines, showing ");
    r.append(decimal_string(first + 1).as_str());
    r.append("--");
    r.append(decimal_string(stop).as_str());
    r.append("]");
    r
}

/// The reading tool's answer for a file whose text is `content`.
pub fn read_file_report(path: &str, content: &str, start: Option<usize>, end: Option<usize>) -> (r: String)
    requires
        read_window_ok(content@, start, end),
    ensures
        r@ == read_report(path@, content@, start, end),
{
    let cs = chars_of(content);
    let ls = lines_vec(cs.as_slice());
    let bytes_len = content.len();
    let total = ls.len();
    let (first, stop) = window(total, start, end);
    let preview = if bytes_len > 10000 {
        long_preview_text(&ls, first, stop)
    } else {
        String::from_str(content)
    };
    let mut r = String::from_str("(file: ");
    r.append(path);
    r.append(", ");
    r.append(decimal_string(total).as_str());
    r.append(" lines, ");
    r.append(decimal_string(bytes_len).as_str());
    r.append(" bytes)\n\n");
    r.append(preview.as_str());
    r
}

/// `s[a..b]` by bytes when both ends fall on character boundaries (and
/// are in order), else the empty text (`str::get` with `unwrap_or("")`).
pub open spec fn byte_slice(s: Seq<char>, a: int, b: int) -> Seq<char> {
    let bs = encode_utf8(s);
    if 0 <= a <= b <= bs.len() && is_char_boundary(bs, a) && is_char_boundary(bs, b) {
        decode_utf8(bs.subrange(a, b))
    } else {
        Seq::empty()
    }
}

/// `str::get(a..b)`, or the empty text where it gives none.
pub fn str_slice(s: &str, a: usize, b: usize) -> (r: String)
    ensures
        r@ == byte_slice(s@, a as int, b as int),
{
    if a < b && s.is_char_boundary(a) && s.is_char_boundary(b) {
        let (head, _) = s.split_at(b);
        proof {
            encode_utf8_decode_utf8(head@);
            vstd::utf8::encode_utf8_valid_utf8(s@);
            vstd::utf8::encode_utf8_valid_utf8(head@);
            assert(encode_utf8(head@) == encode_utf8(s@).subrange(0, b as int));
            assert(is_char_boundary(encode_utf8(head@), a as int)) by {
                vstd::utf8::is_char_boundary_iff_not_is_continuation_byte(encode_utf8(s@), a as int);
                vstd::utf8::is_char_boundary_iff_not_is_continuation_byte(encode_utf8(head@), a as int);
            }
        }
        let (_, mid) = head.split_at(a);
        proof {
            encode_utf8_decode_utf8(mid@);
            assert(encode_utf8(head@).subrange(a as int, encode_utf8(head@).len() as int) =~= encode_utf8(s@).subrange(
                a as int,
                b as int,
            ));
        }
        let r = String::from_str(mid);
        assert(encode_utf8(mid@) == encode_utf8(s@).subrange(a as int, b as int));
        assert(r@ == decode_utf8(encode_utf8(s@).subrange(a as int, b as int)));
        r
    } else {
        proof {
            vstd::utf8::encode_utf8_valid_utf8(s@);
            if a == b && b <= encode_utf8(s@).len() {
                assert(encode_utf8(s@).subrange(a as int, b as int) =~= Seq::<u8>::empty());
                assert(valid_utf8(Seq::<u8>::empty()));
                assert(decode_utf8(Seq::<u8>::empty()) =~= Seq::<char>::empty());
                assert(byte_slice(s@, a as int, b as int) =~= Seq::<char>::empty());
            }
            if a > b {
                assert(byte_slice(s@, a as int, b as int) =~= Seq::<char>::empty());
            }
            if b > encode_utf8(s@).len() {
                assert(byte_slice(s@, a as int, b as int) =~= Seq::<char>::empty());
            }
        }
        let r = String::new();
        assert(r@ =~= Seq::<char>::empty());
        r
    }
}

/// The byte span of `content` the writing tool writes: the requested
/// offsets clamped into the text, the end never before the start.
pub open spec fn write_span(len: usize, start: Option<usize>, end: Option<usize>) -> (usize, usize) {
    let s = match start {
        Some(k) => k,
        None => 0usize,
    };
    let e = match end {
        Some(k) => k,
        None => len,
    };
    let s1 = if s <= len {
        s
    } else {
        len
    };
    let e1 = if e >= s1 {
        e
    } else {
        s1
    };
    (s1, if e1 <= len {
        e1
    } else {
        len
    })
}

/// The written span lies within the text and is never reversed.
pub proof fn lemma_write_span_in_bounds(len: usize, start: Option<usize>, end: Option<usize>)
    ensures
        write_span(len, start, end).0 <= write_span(len, start, end).1 <= len,
{
}

/// What the writing tool writes and answers: the text to write, and the
/// confirmation with a preview of at most 200 bytes from the start.
pub open spec fn write_result(path: Seq<char>, content: Seq<char>, start: Option<usize>, end: Option<usize>) -> (Seq<char>, Seq<char>) {
    let len = utf8_len(content);
    let (s, e) = write_span(len, start, end);
    let slice = byte_slice(content, s as int, e as int);
    let preview = if len > 200 {
        byte_slice(content, s as int, if s + 200 <= len {
            s + 200
        } else {
            len as int
        }) + "..."@
    } else {
        slice
    };
    (
        slice,
        "Written "@ + decimal((e - s) as nat) + " bytes to "@ + path + "\nFirst "@ + decimal(utf8_len(preview) as nat)
            + " chars:\n---\n"@ + preview + "\n---"@,
    )
}

/// The text to write and the writing tool's answer.
pub fn write_file_result(path: &str, content: &str, start: Option<usize>, end: Option<usize>) -> (r: (String, String))
    ensures
        (r.0@, r.1@) == write_result(path@, content@, start, end),
{
    let len = content.len();
    let s = match start {
        Some(k) => k,
        None => 0,
    };
    let e = match end {
        Some(k) => k,
        None => len,
    };
    let s1 = if s <= len {
        s
    } else {
        len
    };
    let e1 = if e >= s1 {
        e
    } else {
        s1
    };
    let e2 = if e1 <= len {
        e1
    } else {
        len
    };
    let slice = str_slice(content, s1, e2);
    let preview = if len > 200 {
        let pe = if s1 <= len - 200 {
            s1 + 200
        } else {
            len
        };
        let mut p = str_slice(content, s1, pe);
        p.append("...");
        p
    } else {
        String::from_str(slice.as_str())
    };
    let mut r = String::from_str("Written ");
    r.append(decimal_string(e2 - s1).as_str());
    r.append(" bytes to ");
    r.append(path);
    r.append("\nFirst ");
    r.append(decimal_string(preview.as_str().len()).as_str());
    r.append(" chars:\n---\n");
    r.append(preview.as_str());
    r.append("\n---");
    (slice, r)
}

/// The first `n` characters of `s`, or all of them.
pub open spec fn first_chars(s: Seq<char>, n: nat) -> Seq<char> {
    if s.len() <= n {
        s
    } else {
        s.take(n as int)
    }
}

/// One output stream as the shell tool shows it: cut to its first `cap`
/// characters, with a note, when it is longer than `cap` bytes.
pub open spec fn capped(s: Seq<char>, cap: nat, note: Seq<char>) -> Seq<char> {
    if utf8_len(s) > cap {
        first_chars(s, cap) + note
    } else {
        s
    }
}

/// The decimal form of a signed number.
pub open spec fn signed_decimal(n: i32) -> Seq<char> {
    if n < 0 {
        "-"@ + decimal((-(n as int)) as nat)
    } else {
        decimal(n as nat)
    }
}

/// What the shell tool answers: the standard output, then the standard
/// error under a heading, each capped, then the exit code (-1 when the
/// process was ended by a signal).
pub open spec fn shell_report(stdout: Seq<u8>, stderr: Seq<u8>, code: Option<i32>) -> Seq<char> {
    let out = if stdout.len() > 0 {
        capped(spec_utf8_lossy(stdout), 102400, "\n... [stdout truncated at 100KB]"@)
    } else {
        Seq::empty()
    };
    let err = if stderr.len() > 0 {
        (if out.len() > 0 {
            "\n"@
        } else {
            Seq::empty()
        }) + "stderr:\n"@ + capped(spec_utf8_lossy(stderr), 51200, "\n... [stderr truncated at 50KB]"@)
    } else {
        Seq::empty()
    };
    let c = match code {
        Some(k) => k,
        None => -1i32,
    };
    out + err + "\n(exit code: "@ + signed_decimal(c) + ")"@
}

fn capped_text(s: &str, cap: usize, note: &str) -> (r: String)
    ensures
        r@ == capped(s@, cap as nat, note@),
{
    if s.len() > cap {
        let cs = chars_of(s);
        let n = if cs.len() <= cap {
            cs.len()
        } else {
            cap
        };
        let head = chars_range(cs.as_slice(), 0, n);
        assert(cs@.len() <= cap ==> cs@.subrange(0, n as int) =~= cs@);
        let mut r = string_of(head.as_slice());
        r.append(note);
        r
    } else {
        String::from_str(s)
    }
}

fn signed_decimal_string(n: i32) -> (s: String)
    ensures
        s@ == signed_decimal(n),
{
    if n < 0 {
        let m: u64 = (-(n as i64)) as u64;
        let mut s = String::from_str("-");
        s.append(crate::text::decimal_u64(m).as_str());
        s
    } else {
        crate::text::decimal_u64(n as u64)
    }
}

/// The shell tool's answer for a finished command.
pub fn shell_output(stdout: &[u8], stderr: &[u8], code: Option<i32>) -> (r: String)
    ensures
        r@ == shell_report(stdout@, stderr@, code),
{
    let mut result = String::new();
    if stdout.len() > 0 {
        let s = utf8_lossy(stdout);
        let c = capped_text(s.as_str(), 102400, "\n... [stdout truncated at 100KB]");
        result.append(c.as_str());
    }
    let ghost out = result@;
    if stderr.len() > 0 {
        if !result.as_str().is_empty() {
            result.append("\n");
        }
        result.append("stderr:\n");
        let s = utf8_lossy(stderr);
        let c = capped_text(s.as_str(), 51200, "\n... [stderr truncated at 50KB]");
        result.append(c.as_str());
    }
    let k = match code {
        Some(k) => k,
        None => -1,
    };
    result.append("\n(exit code: ");
    result.append(signed_decimal_string(k).as_str());
    result.append(")");
    result
}

} // verus!
