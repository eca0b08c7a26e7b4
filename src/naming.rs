//! Names derived from user-supplied text: file-system-safe labels, stored
//! file names, joined paths and escaped log values.
use vstd::prelude::*;
use crate::text::{push_char, push_text, text_of};

verus! {

/// An ASCII letter or digit.
pub open spec fn is_alnum(c: char) -> bool {
    ('0' <= c && c <= '9') || ('a' <= c && c <= 'z') || ('A' <= c && c <= 'Z')
}

/// ASCII white space, or one of `-`, `_` and `.`: these become a dash.
pub open spec fn is_separator(c: char) -> bool {
    c == ' ' || c == '\t' || c == '\n' || c == '\x0C' || c == '\r' || c == '-' || c == '_'
        || c == '.'
}

/// The lower-case form of an ASCII character; others are kept.
pub open spec fn lower(c: char) -> char {
    if 'A' <= c && c <= 'Z' {
        ((c as u8) + 32) as char
    } else {
        c
    }
}

/// Letters and digits in lower case, each run of separators as one dash
/// (also where only dropped characters stand between them), all else dropped.
pub open spec fn collapsed(s: Seq<char>) -> Seq<char>
    decreases s.len(),
{
    if s.len() == 0 {
        seq![]
    } else {
        let prev = collapsed(s.drop_last());
        let c = s.last();
        if is_alnum(c) {
            prev.push(lower(c))
        } else if is_separator(c) {
            if prev.len() > 0 && prev.last() == '-' {
                prev
            } else {
                prev.push('-')
            }
        } else {
            prev
        }
    }
}

/// `s` without its leading dashes.
pub open spec fn trim_start_dashes(s: Seq<char>) -> Seq<char>
    decreases s.len(),
{
    if s.len() > 0 && s[0] == '-' {
        trim_start_dashes(s.drop_first())
    } else {
        s
    }
}

/// `s` without its trailing dashes.
pub open spec fn trim_end_dashes(s: Seq<char>) -> Seq<char>
    decreases s.len(),
{
    if s.len() > 0 && s.last() == '-' {
        trim_end_dashes(s.drop_last())
    } else {
        s
    }
}

/// The file-system-safe form of a label, or `fallback` where nothing of the
/// label is left.
pub open spec fn sanitized(value: Seq<char>, fallback: Seq<char>) -> Seq<char> {
    let t = trim_end_dashes(trim_start_dashes(collapsed(value)));
    if t.len() == 0 {
        fallback
    } else {
        t
    }
}

fn lower_char(c: char) -> (r: char)
    ensures
        r == lower(c),
{
    if 'A' <= c && c <= 'Z' {
        ((c as u8) + 32) as char
    } else {
        c
    }
}

proof fn lemma_trim_start_skip(s: Seq<char>, lo: int)
    requires
        0 <= lo < s.len(),
        s[lo] == '-',
    ensures
        trim_start_dashes(s.subrange(lo, s.len() as int)) == trim_start_dashes(
            s.subrange(lo + 1, s.len() as int),
        ),
{
    assert(s.subrange(lo, s.len() as int).drop_first() == s.subrange(lo + 1, s.len() as int));
}

proof fn lemma_trim_end_skip(s: Seq<char>, lo: int, hi: int)
    requires
        0 <= lo < hi <= s.len(),
        s[hi - 1] == '-',
    ensures
        trim_end_dashes(s.subrange(lo, hi)) == trim_end_dashes(s.subrange(lo, hi - 1)),
{
    assert(s.subrange(lo, hi).drop_last() == s.subrange(lo, hi - 1));
}

/// Lower-cases the letters and digits of `value`, turns each run of white
/// space, `-`, `_` and `.` into one dash, drops everything else and trims the
/// dashes at both ends; where nothing is left, the result is `fallback`.
pub fn sanitize_file_name(value: &str, fallback: &str) -> (r: String)
    ensures
        r@ == sanitized(value@, fallback@),
{
    let n = value.unicode_len();
    let mut buf: Vec<char> = Vec::new();
    let mut i: usize = 0;
    while i < n
        invariant
            n == value@.len(),
            i <= n,
            buf@ == collapsed(value@.subrange(0, i as int)),
        decreases n - i,
    {
        let c = value.get_char(i);
        assert(value@.subrange(0, i + 1).drop_last() == value@.subrange(0, i as int));
        if ('0' <= c && c <= '9') || ('a' <= c && c <= 'z') || ('A' <= c && c <= 'Z') {
            buf.push(lower_char(c));
        } else if c == ' ' || c == '\t' || c == '\n' || c == '\x0C' || c == '\r' || c == '-'
            || c == '_' || c == '.' {
            let len = buf.len();
            if !(len > 0 && buf[len - 1] == '-') {
                buf.push('-');
            }
        }
        i = i + 1;
    }
    assert(value@.subrange(0, n as int) == value@);
    let len = buf.len();
    let mut lo: usize = 0;
    assert(buf@.subrange(0, len as int) == buf@);
    while lo < len && buf[lo] == '-'
        invariant
            len == buf@.len(),
            lo <= len,
            trim_start_dashes(buf@) == trim_start_dashes(buf@.subrange(lo as int, len as int)),
        decreases len - lo,
    {
        proof {
            lemma_trim_start_skip(buf@, lo as int);
        }
        lo = lo + 1;
    }
    assert(trim_start_dashes(buf@) == buf@.subrange(lo as int, len as int));
    let mut hi: usize = len;
    while hi > lo && buf[hi - 1] == '-'
        invariant
            len == buf@.len(),
            lo <= hi <= len,
            trim_end_dashes(buf@.subrange(lo as int, len as int)) == trim_end_dashes(
                buf@.subrange(lo as int, hi as int),
            ),
        decreases hi,
    {
        proof {
            lemma_trim_end_skip(buf@, lo as int, hi as int);
        }
        hi = hi - 1;
    }
    let ghost t = buf@.subrange(lo as int, hi as int);
    assert(trim_end_dashes(t) == t);
    if hi == lo {
        return text_of(fallback);
    }
    let mut out = String::new();
    let mut k: usize = lo;
    while k < hi
        invariant
            len == buf@.len(),
            lo <= k <= hi <= len,
            out@ == buf@.subrange(lo as int, k as int),
        decreases hi - k,
    {
        push_char(&mut out, buf[k]);
        k = k + 1;
        assert(buf@.subrange(lo as int, k as int) == buf@.subrange(lo as int, k - 1).push(
            buf@[k - 1],
        ));
    }
    out
}

/// Line breaks written as the two characters `\n` and `\r`, so that a value
/// stays on one log line.
pub open spec fn escaped(s: Seq<char>) -> Seq<char>
    decreases s.len(),
{
    if s.len() == 0 {
        seq![]
    } else {
        let prev = escaped(s.drop_last());
        let c = s.last();
        if c == '\n' {
            prev + seq!['\\', 'n']
        } else if c == '\r' {
            prev + seq!['\\', 'r']
        } else {
            prev.push(c)
        }
    }
}

/// Replaces each line feed by `\n` and each carriage return by `\r`.
pub fn sanitize_log_value(value: &str) -> (r: String)
    ensures
        r@ == escaped(value@),
{
    let n = value.unicode_len();
    let mut out = String::new();
    let mut i: usize = 0;
    while i < n
        invariant
            n == value@.len(),
            i <= n,
            out@ == escaped(value@.subrange(0, i as int)),
        decreases n - i,
    {
        let c = value.get_char(i);
        assert(value@.subrange(0, i + 1).drop_last() == value@.subrange(0, i as int));
        if c == '\n' {
            push_char(&mut out, '\\');
            push_char(&mut out, 'n');
        } else if c == '\r' {
            push_char(&mut out, '\\');
            push_char(&mut out, 'r');
        } else {
            push_char(&mut out, c);
        }
        i = i + 1;
    }
    assert(value@.subrange(0, n as int) == value@);
    out
}

/// The index of the last `c` in `s`, or -1.
pub open spec fn last_index_of(s: Seq<char>, c: char) -> int
    decreases s.len(),
{
    if s.len() == 0 {
        -1
    } else if s.last() == c {
        s.len() - 1
    } else {
        last_index_of(s.drop_last(), c)
    }
}

proof fn lemma_last_index_bounds(s: Seq<char>, c: char)
    ensures
        -1 <= last_index_of(s, c) < s.len(),
        last_index_of(s, c) >= 0 ==> s[last_index_of(s, c)] == c,
    decreases s.len(),
{
    if s.len() > 0 && s.last() != c {
        lemma_last_index_bounds(s.drop_last(), c);
    }
}

/// What follows the last `/` of a path.
pub open spec fn base_name(s: Seq<char>) -> Seq<char> {
    s.subrange(last_index_of(s, '/') + 1, s.len() as int)
}

/// The extension of a file name: what follows the last dot of its base name,
/// where that dot does not open the name; empty where there is none.
pub open spec fn extension_of(name: Seq<char>) -> Seq<char> {
    let b = base_name(name);
    let d = last_index_of(b, '.');
    if d <= 0 {
        seq![]
    } else {
        b.subrange(d + 1, b.len() as int)
    }
}

/// One more than the index of the last `c` in `s`, or 0 where there is none.
fn find_last(s: &str, n: usize, c: char) -> (r: usize)
    requires
        n == s@.len(),
    ensures
        r == last_index_of(s@, c) + 1,
{
    let mut i: usize = n;
    assert(s@.subrange(0, n as int) == s@);
    while i > 0 && s.get_char(i - 1) != c
        invariant
            n == s@.len(),
            i <= n,
            last_index_of(s@, c) == last_index_of(s@.subrange(0, i as int), c),
        decreases i,
    {
        assert(s@.subrange(0, i as int).drop_last() == s@.subrange(0, i - 1));
        i = i - 1;
    }
    if i == 0 {
        assert(s@.subrange(0, 0) =~= Seq::<char>::empty());
        0
    } else {
        assert(s@.subrange(0, i as int).last() == c);
        i
    }
}

/// The extension of `name` as a new string (empty where there is none).
pub fn file_extension(name: &str) -> (r: String)
    ensures
        r@ == extension_of(name@),
{
    let n = name.unicode_len();
    let slash = find_last(name, n, '/');
    proof {
        lemma_last_index_bounds(name@, '/');
    }
    let start: usize = slash;
    let mut base = String::new();
    let mut i: usize = start;
    while i < n
        invariant
            n == name@.len(),
            start <= i <= n,
            start == last_index_of(name@, '/') + 1,
            base@ == name@.subrange(start as int, i as int),
        decreases n - i,
    {
        push_char(&mut base, name.get_char(i));
        i = i + 1;
        assert(name@.subrange(start as int, i as int) == name@.subrange(start as int, i - 1).push(
            name@[i - 1],
        ));
    }
    let ghost b = base@;
    assert(b == base_name(name@));
    let m = base.as_str().unicode_len();
    let dot = find_last(base.as_str(), m, '.');
    proof {
        lemma_last_index_bounds(b, '.');
    }
    let mut ext = String::new();
    if dot > 1 {
        let from: usize = dot;
        let mut k: usize = from;
        while k < m
            invariant
                m == b.len(),
                base@ == b,
                from <= k <= m,
                ext@ == b.subrange(from as int, k as int),
            decreases m - k,
        {
            push_char(&mut ext, base.as_str().get_char(k));
            k = k + 1;
            assert(b.subrange(from as int, k as int) == b.subrange(from as int, k - 1).push(
                b[k - 1],
            ));
        }
    } else {
        assert(ext@ =~= Seq::<char>::empty());
    }
    ext
}

/// The name under which content is stored: the id, and the original
/// extension after a dot where there is one.
pub open spec fn stored_name(id: Seq<char>, original: Seq<char>) -> Seq<char> {
    let ext = extension_of(original);
    if ext.len() == 0 {
        id
    } else {
        id + seq!['.'] + ext
    }
}

/// `name` placed inside `dir`: a slash between the two unless `dir` is empty
/// or already ends with one. `name` is a relative name.
pub open spec fn joined(dir: Seq<char>, name: Seq<char>) -> Seq<char> {
    if dir.len() == 0 || dir.last() == '/' {
        dir + name
    } else {
        dir + seq!['/'] + name
    }
}

/// The stored file name for content with id `id` that arrived as `original`.
pub fn stored_file_name(id: &str, original: &str) -> (r: String)
    ensures
        r@ == stored_name(id@, original@),
{
    let ext = file_extension(original);
    let mut r = text_of(id);
    if ext.as_str().unicode_len() > 0 {
        push_char(&mut r, '.');
        push_text(&mut r, ext.as_str());
    }
    r
}

/// Places the relative name `name` inside the directory `dir`.
pub fn join_path(dir: &str, name: &str) -> (r: String)
    ensures
        r@ == joined(dir@, name@),
{
    let n = dir.unicode_len();
    let mut r = text_of(dir);
    if !(n == 0 || dir.get_char(n - 1) == '/') {
        push_char(&mut r, '/');
    }
    push_text(&mut r, name);
    r
}

/// The location of the database file inside the application directory.
pub fn db_path(app_dir: &str) -> (r: String)
    ensures
        r@ == joined(app_dir@, "app.db"@),
{
    join_path(app_dir, "app.db")
}

/// The upper-case form of a text, as `str::to_uppercase` gives it.
pub uninterp spec fn upper_of(s: Seq<char>) -> Seq<char>;

/// Relies on `str::to_uppercase`: the result depends on the characters
/// alone.
#[verifier::external_body]
fn uppercase(s: &str) -> (r: String)
    ensures
        r@ == upper_of(s@),
{
    s.to_uppercase()
}

/// One log line: the time, the level in upper case within brackets, the
/// context within parentheses where there is one, the message, and the
/// metadata after ` :: ` where it is not empty; line breaks in the last
/// three are escaped.
pub open spec fn log_line(
    timestamp: Seq<char>,
    level: Seq<char>,
    message: Seq<char>,
    context: Option<Seq<char>>,
    metadata: Option<Seq<char>>,
) -> Seq<char> {
    let head = timestamp + seq![' ', '['] + upper_of(level) + seq![']'];
    let ctx = match context {
        Some(c) => seq![' ', '('] + escaped(c) + seq![')'],
        None => seq![],
    };
    let meta = match metadata {
        Some(m) => if escaped(m).len() > 0 {
            seq![' ', ':', ':', ' '] + escaped(m)
        } else {
            seq![]
        },
        None => seq![],
    };
    head + ctx + seq![' '] + escaped(message) + meta
}

/// Lays out one log line from its parts.
pub fn format_log_line(
    timestamp: &str,
    level: &str,
    message: &str,
    context: &Option<String>,
    metadata: &Option<String>,
) -> (r: String)
    ensures
        r@ == log_line(
            timestamp@,
            level@,
            message@,
            match *context {
                Some(c) => Some(c@),
                None => None,
            },
            match *metadata {
                Some(m) => Some(m@),
                None => None,
            },
        ),
{
    let mut line = text_of(timestamp);
    push_char(&mut line, ' ');
    push_char(&mut line, '[');
    let upper = uppercase(level);
    push_text(&mut line, upper.as_str());
    push_char(&mut line, ']');
    let ghost head = line@;
    assert(head == timestamp@ + seq![' ', '['] + upper_of(level@) + seq![']']);
    match context {
        Some(c) => {
            push_char(&mut line, ' ');
            push_char(&mut line, '(');
            let e = sanitize_log_value(c.as_str());
            push_text(&mut line, e.as_str());
            push_char(&mut line, ')');
            assert(line@ == head + (seq![' ', '('] + escaped(c@) + seq![')']));
        },
        None => {
            assert(line@ == head + Seq::<char>::empty());
        },
    }
    let ghost with_ctx = line@;
    push_char(&mut line, ' ');
    let msg = sanitize_log_value(message);
    push_text(&mut line, msg.as_str());
    assert(line@ == with_ctx + seq![' '] + escaped(message@));
    let ghost body = line@;
    match metadata {
        Some(m) => {
            let e = sanitize_log_value(m.as_str());
            if e.as_str().unicode_len() > 0 {
                push_text(&mut line, " :: ");
                proof {
                    reveal_strlit(" :: ");
                }
                push_text(&mut line, e.as_str());
                assert(line@ == body + (seq![' ', ':', ':', ' '] + escaped(m@)));
            } else {
                assert(line@ == body + Seq::<char>::empty());
            }
        },
        None => {
            assert(line@ == body + Seq::<char>::empty());
        },
    }
    line
}

} // verus!
