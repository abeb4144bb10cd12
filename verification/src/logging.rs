//! Rendering and policy of the resilient dual-sink log: console lines keep
//! their decoration, file lines are stripped to plain text, every line is
//! timestamped, and a write flushes to durable storage only when forced or
//! when the last flush has grown old. The sinks themselves live outside;
//! this module decides and renders.

use vstd::prelude::*;

verus! {

/// How many characters of a decoration code start at `i`: a reset, bold or
/// color code of the console styling, or zero where none does.
pub open spec fn code_len_at(s: Seq<char>, i: int) -> int {
    if i + 5 <= s.len() && s[i] == '\u{1b}' && s[i + 1] == '[' && s[i + 2] == '3' && '1' <= s[i
        + 3] && s[i + 3] <= '6' && s[i + 4] == 'm' {
        5
    } else if i + 4 <= s.len() && s[i] == '\u{1b}' && s[i + 1] == '[' && (s[i + 2] == '0' || s[i
        + 2] == '1') && s[i + 3] == 'm' {
        4
    } else {
        0
    }
}

/// The text with every decoration code removed, in one left-to-right pass.
pub open spec fn strip_ansi(s: Seq<char>) -> Seq<char>
    decreases s.len(),
{
    if s.len() == 0 {
        Seq::empty()
    } else if code_len_at(s, 0) > 0 {
        strip_ansi(s.skip(code_len_at(s, 0)))
    } else {
        seq![s[0]] + strip_ansi(s.skip(1))
    }
}

/// Removes the console decoration codes from a message, leaving the plain
/// text that the file sink records.
pub fn strip_colors(text: &str) -> (r: String)
    ensures
        r@ == strip_ansi(text@),
{
    let n: usize = text.unicode_len();
    let mut out = String::new();
    let mut i: usize = 0;
    proof {
        assert(text@.skip(0) =~= text@);
        assert(out@ + strip_ansi(text@) =~= strip_ansi(text@));
    }
    while i < n
        invariant
            n == text@.len(),
            0 <= i <= n,
            strip_ansi(text@) == out@ + strip_ansi(text@.skip(i as int)),
        decreases n - i,
    {
        let ghost tail = text@.skip(i as int);
        proof {
            assert(tail[0] == text@[i as int]);
            if i + 1 < n {
                assert(tail[1] == text@[i + 1]);
            }
            if i + 2 < n {
                assert(tail[2] == text@[i + 2]);
            }
            if i + 3 < n {
                assert(tail[3] == text@[i + 3]);
            }
            if i + 4 < n {
                assert(tail[4] == text@[i + 4]);
            }
        }
        let c0 = text.get_char(i);
        let mut clen: usize = 0;
        if c0 == '\u{1b}' && n - i > 3 {
            let c1 = text.get_char(i + 1);
            let c2 = text.get_char(i + 2);
            let c3 = text.get_char(i + 3);
            if c1 == '[' {
                if (c2 == '0' || c2 == '1') && c3 == 'm' {
                    clen = 4;
                } else if c2 == '3' && n - i > 4 {
                    let c4 = text.get_char(i + 4);
                    if '1' <= c3 && c3 <= '6' && c4 == 'm' {
                        clen = 5;
                    }
                }
            }
        }
        proof {
            assert(code_len_at(tail, 0) == clen);
        }
        if clen == 0 {
            let piece = text.substring_char(i, i + 1);
            out.append(piece);
            proof {
                assert(piece@ =~= seq![text@[i as int]]);
                assert(tail.skip(1) =~= text@.skip(i + 1));
                assert(strip_ansi(tail) == seq![tail[0]] + strip_ansi(tail.skip(1)));
                assert(strip_ansi(text@) =~= out@ + strip_ansi(text@.skip(i + 1)));
            }
            i = i + 1;
        } else {
            proof {
                assert(tail.skip(clen as int) =~= text@.skip(i + clen));
                assert(strip_ansi(tail) == strip_ansi(tail.skip(clen as int)));
            }
            i = i + clen;
        }
    }
    proof {
        assert(text@.skip(n as int) =~= Seq::<char>::empty());
        assert(strip_ansi(text@) =~= out@);
    }
    out
}

/// One rendered log line: the timestamp in brackets, then the message.
pub open spec fn line_spec(ts: Seq<char>, msg: Seq<char>) -> Seq<char> {
    ("[")@ + ts + ("] ")@ + msg
}

/// Renders one timestamped log line.
pub fn render_line(ts: &str, msg: &str) -> (r: String)
    ensures
        r@ == line_spec(ts@, msg@),
{
    let mut s = String::from_str("[");
    s.append(ts);
    s.append("] ");
    s.append(msg);
    proof {
        assert(s@ =~= line_spec(ts@, msg@));
    }
    s
}

/// A multi-line block as the file sink records it: the title line, then
/// each continuation line indented by two spaces, all under one timestamp.
pub open spec fn block_spec(ts: Seq<char>, title: Seq<char>, lines: Seq<String>) -> Seq<char>
    decreases lines.len(),
{
    if lines.len() == 0 {
        line_spec(ts, title)
    } else {
        block_spec(ts, title, lines.drop_last()) + ("\n")@ + line_spec(
            ts,
            ("  ")@ + lines.last()@,
        )
    }
}

/// Renders a multi-line block under one timestamp.
pub fn render_block(ts: &str, title: &str, lines: &Vec<String>) -> (r: String)
    ensures
        r@ == block_spec(ts@, title@, lines@),
{
    let mut s = render_line(ts, title);
    let mut j: usize = 0;
    while j < lines.len()
        invariant
            0 <= j <= lines@.len(),
            s@ == block_spec(ts@, title@, lines@.take(j as int)),
        decreases lines@.len() - j,
    {
        s.append("\n");
        let mut indented = String::from_str("  ");
        indented.append(lines[j].as_str());
        let piece = render_line(ts, indented.as_str());
        s.append(piece.as_str());
        proof {
            assert(lines@.take(j + 1).drop_last() =~= lines@.take(j as int));
            assert(lines@.take(j + 1).last() == lines@[j as int]);
            assert(indented@ =~= ("  ")@ + lines@[j as int]@);
            assert(s@ =~= block_spec(ts@, title@, lines@.take(j + 1)));
        }
        j = j + 1;
    }
    proof {
        assert(lines@.take(lines@.len() as int) =~= lines@);
    }
    s
}

/// When the file sink was last flushed to durable storage.
pub struct FlushClock {
    last_flush_ms: u64,
}

/// What one attempted file write does: the line to hand the file sink, if
/// the non-blocking lock was had, and whether to flush before returning.
pub struct WriteDirective {
    pub file_line: Option<String>,
    pub flush: bool,
}

impl FlushClock {
    /// The monotonic time of the last forced or aged flush.
    pub closed spec fn last(&self) -> u64 {
        self.last_flush_ms
    }

    /// A clock that treats the sink as freshly flushed now.
    pub fn new(now_ms: u64) -> (r: FlushClock)
        ensures
            r.last() == now_ms,
    {
        FlushClock { last_flush_ms: now_ms }
    }

    /// Decides one attempted file write. A write happens exactly when the
    /// sink's lock was acquired without blocking; a skipped write changes
    /// nothing. A performed write carries the rendered line unchanged, and
    /// flushes exactly when forced or when the last flush is more than
    /// thirty seconds old; a flush resets this clock.
    pub fn plan_file_write(
        &mut self,
        file_line: &str,
        force_flush: bool,
        lock_acquired: bool,
        now_ms: u64,
    ) -> (r: WriteDirective)
        requires
            now_ms >= old(self).last(),
        ensures
            lock_acquired ==> (r.file_line matches Some(l) && l@ == file_line@),
            !lock_acquired ==> r.file_line is None,
            r.flush == (lock_acquired && (force_flush || now_ms - old(self).last() > 30000)),
            r.flush ==> final(self).last() == now_ms,
            !r.flush ==> final(self).last() == old(self).last(),
    {
        if !lock_acquired {
            return WriteDirective { file_line: None, flush: false };
        }
        let flush = force_flush || now_ms - self.last_flush_ms > 30000;
        if flush {
            self.last_flush_ms = now_ms;
        }
        WriteDirective { file_line: Some(file_line.to_owned()), flush }
    }
}

/// Relies on `chrono::Local::now` and its `%Y-%m-%d %H:%M:%S` formatting
/// for the wall-clock stamp on log lines; the result depends on the clock,
/// so nothing is promised of it.
#[verifier::external_body]
pub fn now_timestamp() -> (r: String) {
    chrono::Local::now().format("%Y-%m-%d %H:%M:%S").to_string()
}

/// Renders one message for both sinks under one fresh timestamp: decorated
/// for the console, stripped to plain text for the file.
pub fn compose_entry(msg: &str) -> (r: (String, String))
    ensures
        exists|ts: Seq<char>|
            #![auto]
            r.0@ == line_spec(ts, msg@) && r.1@ == line_spec(ts, strip_ansi(msg@)),
{
    let ts = now_timestamp();
    let console = render_line(ts.as_str(), msg);
    let stripped = strip_colors(msg);
    let file = render_line(ts.as_str(), stripped.as_str());
    proof {
        assert(console@ == line_spec(ts@, msg@) && file@ == line_spec(ts@, strip_ansi(msg@)));
    }
    (console, file)
}

} // verus!
