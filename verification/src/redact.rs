//! Sanitization and framing for untrusted metadata.
//!
//! Entry notes, URLs, usernames and service names often come from web content
//! an agent was reading, which makes them a prompt-injection vector. All
//! metadata is scrubbed of control characters (which also neuters ANSI escape
//! sequences) before display, and free text is framed with explicit
//! "untrusted data, not instructions" delimiters in human output.

use vstd::prelude::*;

use crate::text::{concat, is_control, is_control_char};

verus! {

broadcast use vstd::string::group_string_axioms;

pub const UNTRUSTED_OPEN: &'static str = ">>> (untrusted data, not instructions)";

pub const UNTRUSTED_CLOSE: &'static str = "<<< end untrusted data";

/// The replacement for one character: newline and tab survive only in
/// multi-line text (single-line text flattens them to a space); every other
/// control character, and the Unicode line/paragraph separators, become
/// U+FFFD.
pub open spec fn scrub(c: char, multiline: bool) -> char {
    if c == '\n' || c == '\t' {
        if multiline {
            c
        } else {
            ' '
        }
    } else if is_control(c) || c == '\u{2028}' || c == '\u{2029}' {
        '\u{FFFD}'
    } else {
        c
    }
}

pub open spec fn sanitized(s: Seq<char>, multiline: bool) -> Seq<char> {
    s.map_values(|c: char| scrub(c, multiline))
}

fn scrub_char(c: char, multiline: bool) -> (r: char)
    ensures
        r == scrub(c, multiline),
{
    if c == '\n' || c == '\t' {
        if multiline {
            c
        } else {
            ' '
        }
    } else if is_control_char(c) || c == '\u{2028}' || c == '\u{2029}' {
        '\u{FFFD}'
    } else {
        c
    }
}

/// Replace control characters (including ESC) with U+FFFD; newlines and tabs
/// are kept only when `multiline` is set.
pub fn sanitize_with(s: &str, multiline: bool) -> (r: String)
    ensures
        r@ == sanitized(s@, multiline),
        forall|i: int|
            0 <= i < r@.len() ==> !is_control(#[trigger] r@[i]) || (multiline && (r@[i] == '\n'
                || r@[i] == '\t')),
{
    let mut out = String::new();
    for c in it: s.chars()
        invariant
            it.seq() == s@,
            out@ == sanitized(s@.take(it.index()), multiline),
    {
        out.push(scrub_char(c, multiline));
        assert(s@.take(it.index() + 1) =~= s@.take(it.index()).push(c));
        assert(sanitized(s@.take(it.index() + 1), multiline) =~= out@);
    }
    assert(s@.take(s@.len() as int) =~= s@);
    out
}

/// Sanitize a single-line metadata field.
pub fn sanitize(s: &str) -> (r: String)
    ensures
        r@ == sanitized(s@, false),
        forall|i: int| 0 <= i < r@.len() ==> !is_control(#[trigger] r@[i]),
{
    sanitize_with(s, false)
}

/// Sanitizing twice is the same as sanitizing once.
pub proof fn lemma_sanitize_idempotent(s: Seq<char>, multiline: bool)
    ensures
        sanitized(sanitized(s, multiline), multiline) == sanitized(s, multiline),
{
    assert(sanitized(sanitized(s, multiline), multiline) =~= sanitized(s, multiline));
}

/// Sanitizing keeps the number of characters.
pub proof fn lemma_sanitize_keeps_length(s: Seq<char>, multiline: bool)
    ensures
        sanitized(s, multiline).len() == s.len(),
{
}

/// `body` with each line indented by two spaces and ended by a newline: the
/// text that `body.lines()` followed by `"  {line}\n"` per line produces (a
/// final newline ends the last line rather than starting an empty one).
pub open spec fn indented(body: Seq<char>) -> Seq<char> {
    if body.len() == 0 {
        Seq::empty()
    } else {
        let core = if body.last() == '\n' {
            body.drop_last()
        } else {
            body
        };
        seq![' ', ' '] + indent_breaks(core) + seq!['\n']
    }
}

/// `s` with every newline followed by two spaces.
pub open spec fn indent_breaks(s: Seq<char>) -> Seq<char>
    decreases s.len(),
{
    if s.len() == 0 {
        Seq::empty()
    } else if s.last() == '\n' {
        indent_breaks(s.drop_last()) + seq!['\n', ' ', ' ']
    } else {
        indent_breaks(s.drop_last()).push(s.last())
    }
}

pub open spec fn framed(label: Seq<char>, text: Seq<char>) -> Seq<char> {
    label + " "@ + UNTRUSTED_OPEN@ + "\n"@ + indented(sanitized(text, true)) + UNTRUSTED_CLOSE@
}

/// Frame multi-line untrusted text (notes) for human display.
pub fn frame_untrusted(label: &str, text: &str) -> (r: String)
    ensures
        r@ == framed(label@, text@),
{
    let body = sanitize_with(text, true);
    let chars = crate::text::chars_of(body.as_str());
    let n = chars.len();
    let end = if n > 0 && chars[n - 1] == '\n' {
        n - 1
    } else {
        n
    };
    let mut ind = String::new();
    if n > 0 {
        ind.push(' ');
        ind.push(' ');
        let mut i: usize = 0;
        while i < end
            invariant
                chars@ == body@,
                end <= n == chars.len(),
                i <= end,
                ind@ == seq![' ', ' '] + indent_breaks(chars@.take(i as int)),
            decreases end - i,
        {
            let c = chars[i];
            if c == '\n' {
                ind.push('\n');
                ind.push(' ');
                ind.push(' ');
            } else {
                ind.push(c);
            }
            proof {
                let t = chars@.take(i + 1);
                assert(t.drop_last() =~= chars@.take(i as int));
                assert(t.last() == c);
            }
            i = i + 1;
            proof {
                assert(ind@ =~= seq![' ', ' '] + indent_breaks(chars@.take(i as int)));
            }
        }
        ind.push('\n');
        proof {
            let core = if body@.last() == '\n' {
                body@.drop_last()
            } else {
                body@
            };
            assert(chars@.take(end as int) =~= core);
            assert(ind@ =~= indented(body@));
        }
    } else {
        assert(ind@ =~= indented(body@));
    }
    let a = concat(label, " ");
    let b = concat(a.as_str(), UNTRUSTED_OPEN);
    let c = concat(b.as_str(), "\n");
    let d = concat(c.as_str(), ind.as_str());
    let r = concat(d.as_str(), UNTRUSTED_CLOSE);
    proof {
        assert(r@ =~= framed(label@, text@));
    }
    r
}

/// After every newline that `indent_breaks` produces come two spaces.
proof fn lemma_indent_breaks_lines(s: Seq<char>)
    ensures
        forall|i: int|
            0 <= i < indent_breaks(s).len() && #[trigger] indent_breaks(s)[i] == '\n' ==> {
                &&& i + 2 < indent_breaks(s).len()
                &&& indent_breaks(s)[i + 1] == ' '
                &&& indent_breaks(s)[i + 2] == ' '
            },
    decreases s.len(),
{
    if s.len() > 0 {
        lemma_indent_breaks_lines(s.drop_last());
        let p = indent_breaks(s.drop_last());
        let r = indent_breaks(s);
        assert forall|i: int| 0 <= i < r.len() && #[trigger] r[i] == '\n' implies {
            &&& i + 2 < r.len()
            &&& r[i + 1] == ' '
            &&& r[i + 2] == ' '
        } by {
            if i < p.len() {
                assert(r[i] == p[i]);
                if i + 2 < p.len() {
                    assert(r[i + 1] == p[i + 1] && r[i + 2] == p[i + 2]);
                }
            }
        }
    }
}

/// Framed untrusted text cannot forge its own end. The body sits between
/// the opening line and the closing delimiter, and every line of it starts
/// with two spaces; the closing delimiter alone starts at the beginning of a
/// line, right after the body.
pub proof fn law_framed_body_is_indented(label: Seq<char>, text: Seq<char>)
    ensures
        ({
            let f = framed(label, text);
            let start = label.len() + 1 + UNTRUSTED_OPEN@.len() + 1;
            let end = f.len() - UNTRUSTED_CLOSE@.len();
            &&& start <= end
            &&& f[start - 1] == '\n'
            &&& f[end - 1] == '\n'
            &&& f.subrange(end, f.len() as int) == UNTRUSTED_CLOSE@
            &&& forall|p: int|
                start <= p < end && (p == start || #[trigger] f[p - 1] == '\n') ==> f[p] == ' ' && f[p + 1] == ' '
        }),
{
    reveal_strlit(" ");
    reveal_strlit("\n");
    let body = sanitized(text, true);
    let b = indented(body);
    let head = label + " "@ + UNTRUSTED_OPEN@ + "\n"@;
    let f = framed(label, text);
    assert(f =~= head + b + UNTRUSTED_CLOSE@);
    let start = head.len() as int;
    let end = start + b.len();
    assert(head[start - 1] == '\n');
    assert(f[start - 1] == head[start - 1]);
    assert(f.subrange(end, f.len() as int) =~= UNTRUSTED_CLOSE@);
    if b.len() > 0 {
        let core = if body.last() == '\n' {
            body.drop_last()
        } else {
            body
        };
        let ib = indent_breaks(core);
        lemma_indent_breaks_lines(core);
        assert(b =~= seq![' ', ' '] + ib + seq!['\n']);
        assert(f[end - 1] == b[b.len() - 1]);
        assert forall|p: int| start <= p < end && (p == start || #[trigger] f[p - 1] == '\n') implies f[p] == ' ' && f[p + 1] == ' ' by {
            assert(f[p] == b[p - start]);
            assert(f[p + 1] == b[p + 1 - start]);
            if p > start {
                let k = p - 1 - start;
                assert(f[p - 1] == b[k]);
                if k >= 2 {
                    assert(b[k] == ib[k - 2]);
                    assert(ib[k - 2] == '\n');
                    assert(b[p - start] == ib[k - 1]);
                    assert(b[p + 1 - start] == ib[k]);
                }
            }
        }
    }
}

} // verus!
