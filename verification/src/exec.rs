//! What a command prints in a pseudo-terminal, made into lines: ANSI escape
//! sequences go, carriage returns redraw the current line, control characters
//! are dropped. The program owns the terminal and the child; it hands the text
//! it read to a [`LineSplitter`] and shows the events that come back.

use vstd::prelude::*;

use crate::text::{push_char, to_chars};

verus! {

/// The escape character that starts an ANSI sequence.
pub open spec fn esc() -> char {
    '\u{1b}'
}

/// A CSI sequence ends with a byte in `0x40..=0x7e`.
pub open spec fn is_csi_final(c: char) -> bool {
    '\u{40}' <= c && c <= '\u{7e}'
}

/// The position just after the CSI sequence whose parameters start at `j`
/// (the end of the text where it never ends).
pub open spec fn csi_end(s: Seq<char>, j: int) -> int
    decreases s.len() - j,
{
    if j >= s.len() {
        s.len() as int
    } else if is_csi_final(s[j]) {
        j + 1
    } else {
        csi_end(s, j + 1)
    }
}

/// The position just after the OSC sequence whose body starts at `start`,
/// looking from `j` on: it ends with BEL or with ESC followed by `\`.
pub open spec fn osc_end(s: Seq<char>, start: int, j: int) -> int
    decreases s.len() - j,
{
    if j >= s.len() {
        s.len() as int
    } else if s[j] == '\u{7}' || (j > start && s[j - 1] == esc() && s[j] == '\\') {
        j + 1
    } else {
        osc_end(s, start, j + 1)
    }
}

pub proof fn lemma_csi_end(s: Seq<char>, j: int)
    requires
        0 <= j,
    ensures
        j < s.len() ==> j < csi_end(s, j) <= s.len(),
        j >= s.len() ==> csi_end(s, j) == s.len(),
    decreases s.len() - j,
{
    if j < s.len() && !is_csi_final(s[j]) {
        lemma_csi_end(s, j + 1);
    }
}

pub proof fn lemma_osc_end(s: Seq<char>, start: int, j: int)
    requires
        0 <= j,
    ensures
        j < s.len() ==> j < osc_end(s, start, j) <= s.len(),
        j >= s.len() ==> osc_end(s, start, j) == s.len(),
    decreases s.len() - j,
{
    if j < s.len() && !(s[j] == '\u{7}' || (j > start && s[j - 1] == esc() && s[j] == '\\')) {
        lemma_osc_end(s, start, j + 1);
    }
}

/// An intermediate byte of an escape sequence: `0x20..=0x2f`.
pub open spec fn is_intermediate(c: char) -> bool {
    ' ' <= c && c <= '/'
}

/// The position just after an escape sequence whose intermediate bytes start
/// at `j`: past the intermediates and the final byte after them (a character
/// set designation such as `ESC ( B`).
pub open spec fn nf_end(s: Seq<char>, j: int) -> int
    decreases s.len() - j,
{
    if j >= s.len() {
        s.len() as int
    } else if is_intermediate(s[j]) {
        nf_end(s, j + 1)
    } else {
        j + 1
    }
}

pub proof fn lemma_nf_end(s: Seq<char>, j: int)
    requires
        0 <= j,
    ensures
        j < s.len() ==> j < nf_end(s, j) <= s.len(),
        j >= s.len() ==> nf_end(s, j) == s.len(),
    decreases s.len() - j,
{
    if j < s.len() && is_intermediate(s[j]) {
        lemma_nf_end(s, j + 1);
    }
}

/// The text of `s` from position `i` on, without its escape sequences: a
/// CSI sequence (`ESC [`) runs to its final byte, an OSC sequence (`ESC ]`)
/// to BEL or `ESC \`, one with intermediate bytes (`ESC ( B`) to the final
/// byte after them, and any other escape takes the one character after it.
pub open spec fn strip_from(s: Seq<char>, i: int) -> Seq<char>
    decreases s.len() - i,
{
    if i < 0 || i >= s.len() {
        Seq::<char>::empty()
    } else if s[i] != esc() {
        seq![s[i]] + strip_from(s, i + 1)
    } else if i + 1 >= s.len() {
        Seq::<char>::empty()
    } else if s[i + 1] == '[' {
        proof {
            lemma_csi_end(s, i + 2);
        }
        strip_from(s, csi_end(s, i + 2))
    } else if s[i + 1] == ']' {
        proof {
            lemma_osc_end(s, i + 2, i + 2);
        }
        strip_from(s, osc_end(s, i + 2, i + 2))
    } else if is_intermediate(s[i + 1]) {
        proof {
            lemma_nf_end(s, i + 2);
        }
        strip_from(s, nf_end(s, i + 2))
    } else {
        strip_from(s, i + 2)
    }
}

/// `s` without its ANSI escape sequences.
pub open spec fn stripped(s: Seq<char>) -> Seq<char> {
    strip_from(s, 0)
}

/// Removes ANSI escape sequences (colors, cursor movement, OSC titles,
/// character set designations).
pub fn strip_ansi(s: &str) -> (r: String)
    ensures
        r@ == stripped(s@),
{
    let v = to_chars(s);
    let n = v.len();
    let mut out = String::new();
    let mut i: usize = 0;
    while i < n
        invariant
            n == v@.len(),
            v@ == s@,
            i <= n,
            out@ + strip_from(v@, i as int) == stripped(v@),
        decreases n - i,
    {
        let c = v[i];
        if c != '\u{1b}' {
            assert(strip_from(v@, i as int) == seq![c] + strip_from(v@, i + 1));
            push_char(&mut out, c);
            assert(out@ + strip_from(v@, i + 1) =~= stripped(v@));
            i = i + 1;
        } else if i + 1 >= n {
            assert(strip_from(v@, i as int) =~= Seq::<char>::empty());
            assert(out@ + strip_from(v@, n as int) =~= out@);
            i = n;
        } else if v[i + 1] == '[' {
            let mut j: usize = i + 2;
            proof {
                lemma_csi_end(v@, i + 2);
            }
            while j < n && !('\u{40}' <= v[j] && v[j] <= '\u{7e}')
                invariant
                    n == v@.len(),
                    i + 2 <= j <= n,
                    csi_end(v@, j as int) == csi_end(v@, i + 2),
                decreases n - j,
            {
                j = j + 1;
            }
            let e = if j < n { j + 1 } else { n };
            assert(e == csi_end(v@, j as int));
            i = e;
        } else if v[i + 1] == ']' {
            let mut j: usize = i + 2;
            while j < n && !(v[j] == '\u{7}' || (j > i + 2 && v[j - 1] == '\u{1b}' && v[j] == '\\'))
                invariant
                    n == v@.len(),
                    i + 2 <= j <= n,
                    osc_end(v@, i + 2, j as int) == osc_end(v@, i + 2, i + 2),
                decreases n - j,
            {
                j = j + 1;
            }
            let e = if j < n { j + 1 } else { n };
            assert(e == osc_end(v@, i + 2, j as int));
            i = e;
        } else if ' ' <= v[i + 1] && v[i + 1] <= '/' {
            let mut j: usize = i + 2;
            proof {
                lemma_nf_end(v@, i + 2);
            }
            while j < n && ' ' <= v[j] && v[j] <= '/'
                invariant
                    n == v@.len(),
                    i + 2 <= j <= n,
                    nf_end(v@, j as int) == nf_end(v@, i + 2),
                decreases n - j,
            {
                j = j + 1;
            }
            let e = if j < n { j + 1 } else { n };
            assert(e == nf_end(v@, j as int));
            i = e;
        } else {
            i = i + 2;
        }
    }
    assert(strip_from(v@, i as int) =~= Seq::<char>::empty());
    assert(out@ + Seq::<char>::empty() =~= out@);
    out
}

// ------------------------------------------------------------------ lines

/// What the runner reports back.
#[derive(Debug)]
pub enum ExecEvent {
    /// A completed line, ANSI stripped.
    Line(String),
    /// The current, unfinished line (progress bars redraw it).
    Partial(String),
    /// The process ended with this exit code.
    Done(i32),
}

/// An event as a value: the text of a line as characters.
pub enum EventView {
    Line(Seq<char>),
    Partial(Seq<char>),
    Done(i32),
}

impl View for ExecEvent {
    type V = EventView;

    open spec fn view(&self) -> EventView {
        match self {
            ExecEvent::Line(s) => EventView::Line(s@),
            ExecEvent::Partial(s) => EventView::Partial(s@),
            ExecEvent::Done(c) => EventView::Done(*c),
        }
    }
}

pub open spec fn event_views(v: Seq<ExecEvent>) -> Seq<EventView> {
    Seq::new(v.len(), |i: int| v[i]@)
}

/// A control character in Unicode's sense (`char::is_control`): C0, DEL and C1.
pub open spec fn is_control(c: char) -> bool {
    c <= '\u{1f}' || ('\u{7f}' <= c && c <= '\u{9f}')
}

/// The state after one character, and what it reports: a newline completes
/// the line; a carriage return shows the line so far and marks that the next
/// printable character starts the line over (a progress bar redrawing); other
/// control characters but tab are dropped.
pub open spec fn step(line: Seq<char>, cr: bool, c: char) -> (Seq<char>, bool, Seq<EventView>) {
    if c == '\n' {
        (Seq::<char>::empty(), false, seq![EventView::Line(line)])
    } else if c == '\r' {
        (line, true, if line.len() > 0 { seq![EventView::Partial(line)] } else { Seq::<EventView>::empty() })
    } else if is_control(c) && c != '\t' {
        (line, cr, Seq::<EventView>::empty())
    } else if cr {
        (seq![c], false, Seq::<EventView>::empty())
    } else {
        (line.push(c), false, Seq::<EventView>::empty())
    }
}

/// The state after the characters of `t`, and all they report, in order.
pub open spec fn run_chars(line: Seq<char>, cr: bool, t: Seq<char>) -> (Seq<char>, bool, Seq<EventView>)
    decreases t.len(),
{
    if t.len() == 0 {
        (line, cr, Seq::<EventView>::empty())
    } else {
        let before = run_chars(line, cr, t.drop_last());
        let after = step(before.0, before.1, t.last());
        (after.0, after.1, before.2 + after.2)
    }
}

/// The state after a chunk of output, and what it reports: the events of its
/// characters, ANSI stripped, then the unfinished line if there is one.
pub open spec fn fed(line: Seq<char>, cr: bool, text: Seq<char>) -> (Seq<char>, bool, Seq<EventView>) {
    let r = run_chars(line, cr, stripped(text));
    (r.0, r.1, if r.0.len() > 0 { r.2.push(EventView::Partial(r.0)) } else { r.2 })
}

/// Turns the output of a command into line events, chunk by chunk.
#[derive(Debug)]
pub struct LineSplitter {
    /// The line being printed.
    pub line: String,
    /// A carriage return was seen: the next character either ends the line
    /// ("\r\n", what a pty writes for every newline) or redraws it.
    pub cr: bool,
}

impl LineSplitter {
    pub fn new() -> (r: Self)
        ensures
            r.line@ == Seq::<char>::empty(),
            !r.cr,
    {
        LineSplitter { line: String::new(), cr: false }
    }

    fn step_char(&mut self, c: char, events: &mut Vec<ExecEvent>)
        ensures
            final(self).line@ == step(old(self).line@, old(self).cr, c).0,
            final(self).cr == step(old(self).line@, old(self).cr, c).1,
            event_views(final(events)@) == event_views(old(events)@) + step(
                old(self).line@,
                old(self).cr,
                c,
            ).2,
    {
        let ghost evs = event_views(events@);
        if c == '\n' {
            let done = crate::text::copy_str(self.line.as_str());
            self.line = String::new();
            self.cr = false;
            events.push(ExecEvent::Line(done));
            assert(event_views(events@) =~= evs + seq![EventView::Line(old(self).line@)]);
        } else if c == '\r' {
            self.cr = true;
            if !self.line.as_str().is_empty() {
                let shown = crate::text::copy_str(self.line.as_str());
                events.push(ExecEvent::Partial(shown));
                assert(event_views(events@) =~= evs + seq![EventView::Partial(old(self).line@)]);
            } else {
                assert(event_views(events@) =~= evs + Seq::<EventView>::empty());
            }
        } else if (c <= '\u{1f}' || ('\u{7f}' <= c && c <= '\u{9f}')) && c != '\t' {
            assert(event_views(events@) =~= evs + Seq::<EventView>::empty());
        } else {
            if self.cr {
                self.line = String::new();
                self.cr = false;
            }
            push_char(&mut self.line, c);
            assert(self.line@ =~= step(old(self).line@, old(self).cr, c).0);
            assert(event_views(events@) =~= evs + Seq::<EventView>::empty());
        }
    }

    /// Takes in a chunk of output and returns what it completes or redraws.
    pub fn feed(&mut self, text: &str) -> (r: Vec<ExecEvent>)
        ensures
            final(self).line@ == fed(old(self).line@, old(self).cr, text@).0,
            final(self).cr == fed(old(self).line@, old(self).cr, text@).1,
            event_views(r@) == fed(old(self).line@, old(self).cr, text@).2,
    {
        let clean = strip_ansi(text);
        let w = to_chars(clean.as_str());
        let mut events: Vec<ExecEvent> = Vec::new();
        let ghost line0 = self.line@;
        let ghost cr0 = self.cr;
        let mut i: usize = 0;
        while i < w.len()
            invariant
                w@ == stripped(text@),
                i <= w@.len(),
                self.line@ == run_chars(line0, cr0, w@.take(i as int)).0,
                self.cr == run_chars(line0, cr0, w@.take(i as int)).1,
                event_views(events@) == run_chars(line0, cr0, w@.take(i as int)).2,
            decreases w@.len() - i,
        {
            assert(w@.take(i + 1).drop_last() =~= w@.take(i as int));
            assert(w@.take(i + 1).last() == w@[i as int]);
            self.step_char(w[i], &mut events);
            i = i + 1;
        }
        assert(w@.take(i as int) =~= w@);
        if !self.line.as_str().is_empty() {
            let ghost evs = event_views(events@);
            let shown = crate::text::copy_str(self.line.as_str());
            events.push(ExecEvent::Partial(shown));
            assert(event_views(events@) =~= evs.push(EventView::Partial(self.line@)));
        }
        events
    }

    /// The end of the output: the unfinished line, if any, becomes a line.
    pub fn finish(&self) -> (r: Option<ExecEvent>)
        ensures
            self.line@.len() > 0 ==> (r matches Some(e) && e@ == EventView::Line(self.line@)),
            self.line@.len() == 0 ==> r is None,
    {
        if self.line.as_str().is_empty() {
            None
        } else {
            Some(ExecEvent::Line(crate::text::copy_str(self.line.as_str())))
        }
    }
}

// ------------------------------------------------------------------ laws

proof fn lemma_strip_no_esc(s: Seq<char>, i: int)
    ensures
        forall|k: int| 0 <= k < strip_from(s, i).len() ==> strip_from(s, i)[k] != esc(),
    decreases s.len() - i,
{
    if i < 0 || i >= s.len() {
    } else if s[i] != esc() {
        lemma_strip_no_esc(s, i + 1);
        let rest = strip_from(s, i + 1);
        assert forall|k: int| 0 <= k < strip_from(s, i).len() implies strip_from(s, i)[k] != esc() by {
            if k > 0 {
                assert(strip_from(s, i)[k] == rest[k - 1]);
            }
        }
    } else if i + 1 >= s.len() {
    } else if s[i + 1] == '[' {
        lemma_csi_end(s, i + 2);
        lemma_strip_no_esc(s, csi_end(s, i + 2));
        assert(strip_from(s, i) == strip_from(s, csi_end(s, i + 2)));
    } else if s[i + 1] == ']' {
        lemma_osc_end(s, i + 2, i + 2);
        lemma_strip_no_esc(s, osc_end(s, i + 2, i + 2));
        assert(strip_from(s, i) == strip_from(s, osc_end(s, i + 2, i + 2)));
    } else if is_intermediate(s[i + 1]) {
        lemma_nf_end(s, i + 2);
        lemma_strip_no_esc(s, nf_end(s, i + 2));
        assert(strip_from(s, i) == strip_from(s, nf_end(s, i + 2)));
    } else {
        lemma_strip_no_esc(s, i + 2);
        assert(strip_from(s, i) == strip_from(s, i + 2));
    }
}

/// Stripped text holds no escape character: every sequence goes, and an
/// escape that starts none takes the character after it along.
pub proof fn law_stripped_has_no_escape(s: Seq<char>)
    ensures
        forall|k: int| 0 <= k < stripped(s).len() ==> stripped(s)[k] != esc(),
{
    lemma_strip_no_esc(s, 0);
}

proof fn lemma_strip_plain(s: Seq<char>, i: int)
    requires
        0 <= i <= s.len(),
        forall|k: int| 0 <= k < s.len() ==> s[k] != esc(),
    ensures
        strip_from(s, i) == s.skip(i),
    decreases s.len() - i,
{
    if i < s.len() {
        lemma_strip_plain(s, i + 1);
        assert(seq![s[i]] + s.skip(i + 1) =~= s.skip(i));
    } else {
        assert(s.skip(i) =~= Seq::<char>::empty());
    }
}

/// Text without escape sequences comes through unchanged.
pub proof fn law_plain_text_unchanged(s: Seq<char>)
    requires
        forall|k: int| 0 <= k < s.len() ==> s[k] != esc(),
    ensures
        stripped(s) == s,
{
    lemma_strip_plain(s, 0);
    assert(s.skip(0) =~= s);
}

/// `f` picks, in increasing order, positions of `b` from `from` on that hold
/// the characters of `a`: `a` is a subsequence of `b`.
pub open spec fn picks(a: Seq<char>, b: Seq<char>, f: Seq<int>, from: int) -> bool {
    &&& f.len() == a.len()
    &&& forall|k: int| 0 <= k < f.len() ==> from <= #[trigger] f[k] < b.len() && b[f[k]] == a[k]
    &&& forall|k: int, l: int| 0 <= k < l < f.len() ==> #[trigger] f[k] < #[trigger] f[l]
}

proof fn lemma_strip_picks(s: Seq<char>, i: int) -> (f: Seq<int>)
    requires
        0 <= i,
    ensures
        picks(strip_from(s, i), s, f, i),
    decreases s.len() - i,
{
    if i >= s.len() {
        Seq::empty()
    } else if s[i] != esc() {
        let rest = lemma_strip_picks(s, i + 1);
        let f = seq![i] + rest;
        assert(strip_from(s, i) == seq![s[i]] + strip_from(s, i + 1));
        assert forall|k: int| 0 <= k < f.len() implies i <= #[trigger] f[k] < s.len() && s[f[k]] == strip_from(s, i)[k] by {
            if k > 0 {
                assert(f[k] == rest[k - 1]);
            }
        }
        assert forall|k: int, l: int| 0 <= k < l < f.len() implies #[trigger] f[k] < #[trigger] f[l] by {
            if k > 0 {
                assert(f[k] == rest[k - 1] && f[l] == rest[l - 1]);
            } else {
                assert(f[l] == rest[l - 1]);
            }
        }
        f
    } else if i + 1 >= s.len() {
        Seq::empty()
    } else if s[i + 1] == '[' {
        lemma_csi_end(s, i + 2);
        lemma_strip_picks(s, csi_end(s, i + 2))
    } else if s[i + 1] == ']' {
        lemma_osc_end(s, i + 2, i + 2);
        lemma_strip_picks(s, osc_end(s, i + 2, i + 2))
    } else if is_intermediate(s[i + 1]) {
        lemma_nf_end(s, i + 2);
        lemma_strip_picks(s, nf_end(s, i + 2))
    } else {
        lemma_strip_picks(s, i + 2)
    }
}

/// Stripping only takes characters away: what is left is a subsequence of
/// the input, in its order.
pub proof fn law_stripped_is_subsequence(s: Seq<char>)
    ensures
        exists|f: Seq<int>| picks(stripped(s), s, f, 0),
{
    let f = lemma_strip_picks(s, 0);
    assert(picks(stripped(s), s, f, 0));
}

/// The completed lines among some events, in order.
pub open spec fn completed(ev: Seq<EventView>) -> Seq<Seq<char>>
    decreases ev.len(),
{
    if ev.len() == 0 {
        Seq::empty()
    } else {
        match ev.last() {
            EventView::Line(l) => completed(ev.drop_last()).push(l),
            _ => completed(ev.drop_last()),
        }
    }
}

proof fn lemma_completed_concat(a: Seq<EventView>, b: Seq<EventView>)
    ensures
        completed(a + b) == completed(a) + completed(b),
    decreases b.len(),
{
    if b.len() == 0 {
        assert(a + b =~= a);
        assert(completed(a) + completed(b) =~= completed(a));
    } else {
        lemma_completed_concat(a, b.drop_last());
        assert((a + b).drop_last() =~= a + b.drop_last());
        assert((a + b).last() == b.last());
        match b.last() {
            EventView::Line(l) => {
                assert(completed(a) + completed(b) =~= (completed(a) + completed(b.drop_last())).push(l));
            },
            _ => {},
        }
    }
}

proof fn lemma_run_concat(line: Seq<char>, cr: bool, a: Seq<char>, b: Seq<char>)
    ensures
        ({
            let ra = run_chars(line, cr, a);
            let rb = run_chars(ra.0, ra.1, b);
            let rab = run_chars(line, cr, a + b);
            rab.0 == rb.0 && rab.1 == rb.1 && rab.2 == ra.2 + rb.2
        }),
    decreases b.len(),
{
    let ra = run_chars(line, cr, a);
    if b.len() == 0 {
        assert(a + b =~= a);
        assert(ra.2 + Seq::<EventView>::empty() =~= ra.2);
    } else {
        lemma_run_concat(line, cr, a, b.drop_last());
        assert((a + b).drop_last() =~= a + b.drop_last());
        assert((a + b).last() == b.last());
        let rb0 = run_chars(ra.0, ra.1, b.drop_last());
        let st = step(rb0.0, rb0.1, b.last());
        assert(ra.2 + (rb0.2 + st.2) =~= (ra.2 + rb0.2) + st.2);
    }
}

/// For text without escape sequences, how it is cut into chunks does not
/// change the completed lines nor the state left: feeding `a` then `b`
/// reports the lines that feeding `a + b` reports (only the redraws of an
/// unfinished line at a chunk's end differ).
pub proof fn law_chunks_do_not_change_lines(line: Seq<char>, cr: bool, a: Seq<char>, b: Seq<char>)
    requires
        forall|k: int| 0 <= k < a.len() ==> a[k] != esc(),
        forall|k: int| 0 <= k < b.len() ==> b[k] != esc(),
    ensures
        ({
            let fa = fed(line, cr, a);
            let fb = fed(fa.0, fa.1, b);
            let fab = fed(line, cr, a + b);
            fab.0 == fb.0 && fab.1 == fb.1 && completed(fab.2) == completed(fa.2) + completed(fb.2)
        }),
{
    law_plain_text_unchanged(a);
    law_plain_text_unchanged(b);
    assert forall|k: int| 0 <= k < (a + b).len() implies (a + b)[k] != esc() by {
        if k < a.len() {
            assert((a + b)[k] == a[k]);
        } else {
            assert((a + b)[k] == b[k - a.len()]);
        }
    }
    law_plain_text_unchanged(a + b);
    lemma_run_concat(line, cr, a, b);
    let ra = run_chars(line, cr, a);
    let rb = run_chars(ra.0, ra.1, b);
    let rab = run_chars(line, cr, a + b);
    lemma_completed_concat(ra.2, rb.2);
    let pa = EventView::Partial(ra.0);
    let pb = EventView::Partial(rb.0);
    assert(completed(ra.2.push(pa)) == completed(ra.2)) by {
        assert(ra.2.push(pa).drop_last() =~= ra.2);
    }
    assert(completed(rb.2.push(pb)) == completed(rb.2)) by {
        assert(rb.2.push(pb).drop_last() =~= rb.2);
    }
    assert(completed(rab.2.push(pb)) == completed(rab.2)) by {
        assert(rab.2.push(pb).drop_last() =~= rab.2);
    }
}

/// No control character but tab in a line.
pub open spec fn clean_line(l: Seq<char>) -> bool {
    forall|k: int| 0 <= k < l.len() ==> !(is_control(#[trigger] l[k]) && l[k] != '\t')
}

/// Every event carries a clean line.
pub open spec fn clean_events(ev: Seq<EventView>) -> bool {
    forall|k: int|
        0 <= k < ev.len() ==> match #[trigger] ev[k] {
            EventView::Line(l) => clean_line(l),
            EventView::Partial(l) => clean_line(l),
            EventView::Done(_) => true,
        }
}

proof fn lemma_run_clean(line: Seq<char>, cr: bool, t: Seq<char>)
    requires
        clean_line(line),
    ensures
        clean_line(run_chars(line, cr, t).0),
        clean_events(run_chars(line, cr, t).2),
    decreases t.len(),
{
    if t.len() > 0 {
        lemma_run_clean(line, cr, t.drop_last());
        let before = run_chars(line, cr, t.drop_last());
        let after = step(before.0, before.1, t.last());
        let c = t.last();
        assert(clean_line(after.0)) by {
            if !(c == '\n' || c == '\r' || (is_control(c) && c != '\t')) {
                if before.1 {
                    assert(after.0 =~= seq![c]);
                } else {
                    assert forall|k: int| 0 <= k < after.0.len() implies !(is_control(#[trigger] after.0[k]) && after.0[k] != '\t') by {
                        if k < before.0.len() {
                            assert(after.0[k] == before.0[k]);
                        }
                    }
                }
            }
        }
        assert(clean_events(before.2 + after.2)) by {
            assert forall|k: int| 0 <= k < (before.2 + after.2).len() implies match #[trigger] (before.2 + after.2)[k] {
                EventView::Line(l) => clean_line(l),
                EventView::Partial(l) => clean_line(l),
                EventView::Done(_) => true,
            } by {
                if k < before.2.len() {
                    assert((before.2 + after.2)[k] == before.2[k]);
                } else {
                    assert((before.2 + after.2)[k] == after.2[k - before.2.len()]);
                }
            }
        }
    }
}

/// What the splitter reports never holds an escape sequence remnant or a
/// control character but tab: a line starts clean and stays clean.
pub proof fn law_lines_are_clean(line: Seq<char>, cr: bool, text: Seq<char>)
    requires
        clean_line(line),
    ensures
        clean_line(fed(line, cr, text).0),
        clean_events(fed(line, cr, text).2),
{
    lemma_run_clean(line, cr, stripped(text));
    let r = run_chars(line, cr, stripped(text));
    if r.0.len() > 0 {
        assert(clean_events(r.2.push(EventView::Partial(r.0)))) by {
            assert forall|k: int| 0 <= k < r.2.push(EventView::Partial(r.0)).len() implies match #[trigger] r.2.push(EventView::Partial(r.0))[k] {
                EventView::Line(l) => clean_line(l),
                EventView::Partial(l) => clean_line(l),
                EventView::Done(_) => true,
            } by {
                if k < r.2.len() {
                    assert(r.2.push(EventView::Partial(r.0))[k] == r.2[k]);
                }
            }
        }
    }
}

} // verus!
