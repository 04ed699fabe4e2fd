//! Log viewer model: parses incremental log text into lines and keeps a
//! filtered index for display.
//!
//! Log text arrives in arbitrary chunks. Each complete line (ended by `\n`)
//! is classified: a `[timestamp][LEVEL] message` header starts a new entry,
//! any other line continues the previous entry's message. A trailing piece
//! without `\n` is kept and completed by the next chunk. Lines seen before the
//! first header are discarded, and only the newest `LINE_LIMIT` entries stay.
use vstd::prelude::*;
use std::collections::VecDeque;

use crate::text::{first_index, find_char, range_eq, string_of, push_char, push_chars, chars_of};

verus! {

/// Upper bound on parsed log lines kept in memory.
pub const LINE_LIMIT: usize = 20_000;

/// Log level (used for UI filters and color coding).
#[derive(Debug, Clone, Copy, PartialEq, Eq, Structural)]
pub enum LogLevel {
    Error,
    Warn,
    Info,
    Debug,
    Trace,
    /// Header `[ts][LEVEL] msg` matched but the level string is unknown (e.g. FATAL).
    Unknown,
}

impl LogLevel {
    /// The level named by `s` (`Unknown` for any other name).
    pub open spec fn of_name(s: Seq<char>) -> LogLevel {
        if s == seq!['E', 'R', 'R', 'O', 'R'] {
            LogLevel::Error
        } else if s == seq!['W', 'A', 'R', 'N'] {
            LogLevel::Warn
        } else if s == seq!['I', 'N', 'F', 'O'] {
            LogLevel::Info
        } else if s == seq!['D', 'E', 'B', 'U', 'G'] {
            LogLevel::Debug
        } else if s == seq!['T', 'R', 'A', 'C', 'E'] {
            LogLevel::Trace
        } else {
            LogLevel::Unknown
        }
    }

    /// The level named by the characters `cs[from..to]`.
    pub fn from_level_str(cs: &Vec<char>, from: usize, to: usize) -> (r: LogLevel)
        requires
            from <= to <= cs.len(),
        ensures
            r == LogLevel::of_name(cs@.subrange(from as int, to as int)),
    {
        let ghost s = cs@.subrange(from as int, to as int);
        if range_eq(cs, from, to, &['E', 'R', 'R', 'O', 'R']) {
            assert(s == seq!['E', 'R', 'R', 'O', 'R']);
            LogLevel::Error
        } else if range_eq(cs, from, to, &['W', 'A', 'R', 'N']) {
            assert(s == seq!['W', 'A', 'R', 'N']);
            LogLevel::Warn
        } else if range_eq(cs, from, to, &['I', 'N', 'F', 'O']) {
            assert(s == seq!['I', 'N', 'F', 'O']);
            LogLevel::Info
        } else if range_eq(cs, from, to, &['D', 'E', 'B', 'U', 'G']) {
            assert(s == seq!['D', 'E', 'B', 'U', 'G']);
            LogLevel::Debug
        } else if range_eq(cs, from, to, &['T', 'R', 'A', 'C', 'E']) {
            assert(s == seq!['T', 'R', 'A', 'C', 'E']);
            LogLevel::Trace
        } else {
            assert(s != seq!['E', 'R', 'R', 'O', 'R']);
            LogLevel::Unknown
        }
    }
}

/// What a parsed line holds: level, timestamp and (multi-line) message.
pub type LineView = (LogLevel, Seq<char>, Seq<char>);

/// One parsed log line. `message` is multi-line concatenated (backtraces etc. kept with `\n`).
#[derive(Debug, Clone)]
pub struct LogLine {
    pub level: LogLevel,
    pub timestamp: String,
    pub message: String,
}

impl View for LogLine {
    type V = LineView;

    open spec fn view(&self) -> LineView {
        (self.level, self.timestamp@, self.message@)
    }
}

/// The views of a sequence of lines.
pub open spec fn line_views(s: Seq<LogLine>) -> Seq<LineView> {
    s.map_values(|l: LogLine| l@)
}

/// Parse of the `[HH:MM:SS.mmm][LEVEL] message` form: `(level, timestamp, message)`.
/// The timestamp and level are the texts inside the first two bracket pairs, the
/// message is the rest with one leading space removed. An unknown level name still
/// parses (as `Unknown`); a line without two `[...]` segments does not parse.
pub open spec fn parse_header(line: Seq<char>) -> Option<LineView> {
    if line.len() == 0 || line[0] != '[' {
        None
    } else {
        let rest = line.skip(1);
        match first_index(rest, ']') {
            None => None,
            Some(c1) => {
                let timestamp = rest.take(c1);
                let after = rest.skip(c1 + 1);
                if after.len() == 0 || after[0] != '[' {
                    None
                } else {
                    let rest2 = after.skip(1);
                    match first_index(rest2, ']') {
                        None => None,
                        Some(c2) => {
                            let level_name = rest2.take(c2);
                            let tail = rest2.skip(c2 + 1);
                            let message = if tail.len() > 0 && tail[0] == ' ' {
                                tail.skip(1)
                            } else {
                                tail
                            };
                            Some((LogLevel::of_name(level_name), timestamp, message))
                        },
                    }
                }
            },
        }
    }
}

/// Parse `cs[from..to]` as a header line; the timestamp and message are
/// returned as index ranges into `cs`.
pub fn parse_line_header(cs: &Vec<char>, from: usize, to: usize) -> (r: Option<
    (LogLevel, (usize, usize), (usize, usize)),
>)
    requires
        from <= to <= cs.len(),
    ensures
        r is None <==> parse_header(cs@.subrange(from as int, to as int)) is None,
        r matches Some((lv, (t0, t1), (m0, m1))) ==> {
            &&& from <= t0 <= t1 <= to
            &&& from <= m0 <= m1 <= to
            &&& parse_header(cs@.subrange(from as int, to as int)) == Some(
                (lv, cs@.subrange(t0 as int, t1 as int), cs@.subrange(m0 as int, m1 as int)),
            )
        },
{
    let ghost line = cs@.subrange(from as int, to as int);
    if from == to || cs[from] != '[' {
        return None;
    }
    let ghost rest = line.skip(1);
    assert(rest =~= cs@.subrange(from + 1, to as int));
    let close1 = match find_char(cs, from + 1, to, ']') {
        Some(c) => c,
        None => {
            return None;
        },
    };
    let t0 = from + 1;
    let t1 = from + 1 + close1;
    assert(rest.take(close1 as int) =~= cs@.subrange(t0 as int, t1 as int));
    let a = t1 + 1;
    let ghost after = rest.skip(close1 + 1);
    assert(after =~= cs@.subrange(a as int, to as int));
    if a == to || cs[a] != '[' {
        return None;
    }
    let ghost rest2 = after.skip(1);
    assert(rest2 =~= cs@.subrange(a + 1, to as int));
    let close2 = match find_char(cs, a + 1, to, ']') {
        Some(c) => c,
        None => {
            return None;
        },
    };
    let l0 = a + 1;
    let l1 = a + 1 + close2;
    assert(rest2.take(close2 as int) =~= cs@.subrange(l0 as int, l1 as int));
    let level = LogLevel::from_level_str(cs, l0, l1);
    let t = l1 + 1;
    let ghost tail = rest2.skip(close2 + 1);
    assert(tail =~= cs@.subrange(t as int, to as int));
    let m0 = if t < to && cs[t] == ' ' {
        assert(tail.skip(1) =~= cs@.subrange(t + 1, to as int));
        t + 1
    } else {
        t
    };
    Some((level, (t0, t1), (m0, to)))
}


/// Per-level visibility flags. Default: only Debug is OFF.
#[derive(Debug, Clone, Copy, PartialEq, Eq, Structural)]
pub struct LevelFilters {
    pub show_error: bool,
    pub show_warn: bool,
    pub show_info: bool,
    pub show_debug: bool,
}

impl Default for LevelFilters {
    fn default() -> (r: Self)
        ensures
            r == (LevelFilters { show_error: true, show_warn: true, show_info: true, show_debug: false }),
    {
        Self { show_error: true, show_warn: true, show_info: true, show_debug: false }
    }
}

impl LevelFilters {
    /// Unknown is always shown; Trace follows the Debug flag.
    pub open spec fn passes(self, level: LogLevel) -> bool {
        match level {
            LogLevel::Error => self.show_error,
            LogLevel::Warn => self.show_warn,
            LogLevel::Info => self.show_info,
            LogLevel::Debug => self.show_debug,
            LogLevel::Trace => self.show_debug,
            LogLevel::Unknown => true,
        }
    }

    /// Whether the given level passes the filter.
    pub fn matches(&self, level: LogLevel) -> (r: bool)
        ensures
            r == self.passes(level),
            level is Error ==> r == self.show_error,
            level is Warn ==> r == self.show_warn,
            level is Info ==> r == self.show_info,
            level is Debug || level is Trace ==> r == self.show_debug,
            level is Unknown ==> r,
    {
        match level {
            LogLevel::Error => self.show_error,
            LogLevel::Warn => self.show_warn,
            LogLevel::Info => self.show_info,
            LogLevel::Debug => self.show_debug,
            LogLevel::Trace => self.show_debug,
            LogLevel::Unknown => true,
        }
    }
}

/// Indices of the lines that pass `f`, in order.
pub open spec fn matching_indices(lines: Seq<LineView>, f: LevelFilters) -> Seq<usize>
    decreases lines.len(),
{
    if lines.len() == 0 {
        Seq::empty()
    } else {
        let prev = matching_indices(lines.drop_last(), f);
        if f.passes(lines.last().0) {
            prev.push((lines.len() - 1) as usize)
        } else {
            prev
        }
    }
}

/// The parser's state: the parsed lines, the filtered indices, the pending
/// (not yet terminated) line, and whether the first header is still awaited.
#[verifier::ext_equal]
pub struct ParseState {
    pub lines: Seq<LineView>,
    pub indices: Seq<usize>,
    pub cur: Seq<char>,
    pub seeking: bool,
}

/// `line` without one trailing carriage return.
pub open spec fn strip_cr(line: Seq<char>) -> Seq<char> {
    if line.len() > 0 && line.last() == '\r' {
        line.drop_last()
    } else {
        line
    }
}

/// Append a parsed line; its index joins `indices` when it passes `f`.
pub open spec fn push_view(st: ParseState, f: LevelFilters, l: LineView) -> ParseState {
    ParseState {
        lines: st.lines.push(l),
        indices: if f.passes(l.0) {
            st.indices.push(st.lines.len() as usize)
        } else {
            st.indices
        },
        cur: st.cur,
        seeking: st.seeking,
    }
}

/// Effect of one complete line (its `\n` removed).
pub open spec fn complete_line(st: ParseState, f: LevelFilters, raw: Seq<char>) -> ParseState {
    let line = strip_cr(raw);
    match parse_header(line) {
        Some(h) => push_view(
            ParseState { lines: st.lines, indices: st.indices, cur: st.cur, seeking: false },
            f,
            h,
        ),
        None => if st.seeking {
            st
        } else if st.lines.len() > 0 {
            let last = st.lines.last();
            ParseState {
                lines: st.lines.update(
                    st.lines.len() - 1,
                    (last.0, last.1, last.2 + seq!['\n'] + line),
                ),
                indices: st.indices,
                cur: st.cur,
                seeking: st.seeking,
            }
        } else {
            push_view(st, f, (LogLevel::Unknown, Seq::empty(), line))
        },
    }
}

/// Effect of one character: `\n` completes the pending line, anything else extends it.
pub open spec fn feed(st: ParseState, f: LevelFilters, c: char) -> ParseState {
    if c == '\n' {
        complete_line(
            ParseState { lines: st.lines, indices: st.indices, cur: Seq::empty(), seeking: st.seeking },
            f,
            st.cur,
        )
    } else {
        ParseState { lines: st.lines, indices: st.indices, cur: st.cur.push(c), seeking: st.seeking }
    }
}

/// Effect of a run of characters.
pub open spec fn feed_all(st: ParseState, f: LevelFilters, text: Seq<char>) -> ParseState
    decreases text.len(),
{
    if text.len() == 0 {
        st
    } else {
        feed(feed_all(st, f, text.drop_last()), f, text.last())
    }
}

/// Keep only the newest `LINE_LIMIT` lines; the indices are recomputed after a cut.
pub open spec fn trim(st: ParseState, f: LevelFilters) -> ParseState {
    if st.lines.len() > LINE_LIMIT {
        let kept = st.lines.skip(st.lines.len() - LINE_LIMIT);
        ParseState { lines: kept, indices: matching_indices(kept, f), cur: st.cur, seeking: st.seeking }
    } else {
        st
    }
}

/// Effect of `ingest(text)`: the pending piece and the new text are read as one
/// run of characters, then the line cap is applied. Empty text changes nothing.
pub open spec fn ingest_spec(st: ParseState, f: LevelFilters, text: Seq<char>) -> ParseState {
    if text.len() == 0 {
        st
    } else {
        trim(
            feed_all(
                ParseState { lines: st.lines, indices: st.indices, cur: Seq::empty(), seeking: st.seeking },
                f,
                st.cur + text,
            ),
            f,
        )
    }
}


/// Window position and size: `([x, y], [width, height])`.
pub type Geometry<C> = ([C; 2], [C; 2]);

/// Core state of the log viewer. `C` is the scalar type of window coordinates.
pub struct LogViewerModel<C> {
    /// Whether the log viewer window is visible.
    pub visible: bool,
    /// Last read offset into the log buffer's total written count.
    pub last_offset: usize,
    /// Parsed log lines (at most `LINE_LIMIT` after each `ingest`).
    pub lines: VecDeque<LogLine>,
    /// Indices into `lines` that pass the filter (for virtualized scrolling).
    pub filter_indices: Vec<usize>,
    /// Per-level visibility flags.
    pub filters: LevelFilters,
    /// Auto-follow (stick to bottom).
    pub follow_tail: bool,
    /// Position / size to apply to the window next frame (cleared after apply).
    pub apply_geometry: Option<Geometry<C>>,
    /// Latest geometry read from the window (used for persistence).
    pub last_geometry: Option<Geometry<C>>,
    /// Trailing fragment without a `\n` (prepended to the next ingest call).
    pub tail_buffer: String,
    /// True until the first `[HEADER]` is seen; lines before it are discarded.
    pub seeking_first_header: bool,
}

impl<C> LogViewerModel<C> {
    /// The parser state held by this model.
    pub open spec fn state(&self) -> ParseState {
        ParseState {
            lines: line_views(self.lines@),
            indices: self.filter_indices@,
            cur: self.tail_buffer@,
            seeking: self.seeking_first_header,
        }
    }

    /// Everything but the parsed text is the same in `self` and `other`.
    pub open spec fn same_settings(&self, other: &Self) -> bool {
        &&& self.visible == other.visible
        &&& self.filters == other.filters
        &&& self.follow_tail == other.follow_tail
        &&& self.apply_geometry == other.apply_geometry
        &&& self.last_geometry == other.last_geometry
        &&& self.last_offset == other.last_offset
    }

    /// Push a line; if it passes the filter, its index is added to `filter_indices`.
    fn push_line(&mut self, line: LogLine)
        ensures
            final(self).state() == push_view(old(self).state(), old(self).filters, line@),
            final(self).same_settings(old(self)),
    {
        let m = self.filters.matches(line.level);
        let ghost old_lines = self.lines@;
        self.lines.push_back(line);
        if m {
            self.filter_indices.push(self.lines.len() - 1);
        }
        assert(line_views(self.lines@) =~= line_views(old_lines).push(line@));
    }

    /// Process the complete line `cs[from..to]` (without its `\n`).
    fn complete_line_at(&mut self, cs: &Vec<char>, from: usize, to: usize)
        requires
            from <= to <= cs.len(),
        ensures
            final(self).state() == complete_line(
                old(self).state(),
                old(self).filters,
                cs@.subrange(from as int, to as int),
            ),
            final(self).same_settings(old(self)),
    {
        let end = if to > from && cs[to - 1] == '\r' {
            to - 1
        } else {
            to
        };
        assert(strip_cr(cs@.subrange(from as int, to as int)) =~= cs@.subrange(from as int, end as int));
        match parse_line_header(cs, from, end) {
            Some((level, (t0, t1), (m0, m1))) => {
                self.seeking_first_header = false;
                let line = LogLine {
                    level,
                    timestamp: string_of(cs, t0, t1),
                    message: string_of(cs, m0, m1),
                };
                self.push_line(line);
            },
            None => {
                if self.seeking_first_header {
                    return;
                }
                let ghost old_lines = self.lines@;
                match self.lines.pop_back() {
                    Some(mut last) => {
                        push_char(&mut last.message, '\n');
                        push_chars(&mut last.message, cs, from, end);
                        let ghost lv = last@;
                        self.lines.push_back(last);
                        assert(line_views(self.lines@) =~= line_views(old_lines).update(
                            old_lines.len() - 1,
                            lv,
                        ));
                        assert(lv.2 =~= old_lines.last()@.2 + seq!['\n'] + cs@.subrange(from as int, end as int));
                    },
                    None => {
                        let line = LogLine {
                            level: LogLevel::Unknown,
                            timestamp: String::new(),
                            message: string_of(cs, from, end),
                        };
                        self.push_line(line);
                    },
                }
            },
        }
    }

    /// Parse raw log text (multi-line) and append to `lines`.
    ///
    /// - A trailing fragment without `\n` is carried over via `tail_buffer` and prepended next call.
    /// - While `seeking_first_header` is true, lines are dropped until a `[HEADER]` shape is seen.
    /// - A line without a header, when a previous `LogLine` exists, is appended to its message as multiline.
    /// - When `LINE_LIMIT` is exceeded, the front is drained and `filter_indices` is fully rebuilt.
    pub fn ingest(&mut self, text: &str)
        ensures
            final(self).state() == ingest_spec(old(self).state(), old(self).filters, text@),
            final(self).same_settings(old(self)),
    {
        let mut text_chars = chars_of(text);
        if text_chars.len() == 0 {
            return;
        }
        // The carried-over fragment and the new text are read as one run.
        let mut combined = chars_of(self.tail_buffer.as_str());
        combined.append(&mut text_chars);
        self.tail_buffer = String::new();
        let f = self.filters;
        let ghost st0 = ParseState {
            lines: line_views(self.lines@),
            indices: self.filter_indices@,
            cur: Seq::empty(),
            seeking: self.seeking_first_header,
        };
        assert(combined@ =~= old(self).tail_buffer@ + text@);
        let mut i: usize = 0;
        let mut line_start: usize = 0;
        while i < combined.len()
            invariant
                line_start <= i <= combined.len(),
                f == self.filters,
                self.tail_buffer@ == Seq::<char>::empty(),
                self.same_settings(old(self)),
                feed_all(st0, f, combined@.take(i as int)) == (ParseState {
                    lines: line_views(self.lines@),
                    indices: self.filter_indices@,
                    cur: combined@.subrange(line_start as int, i as int),
                    seeking: self.seeking_first_header,
                }),
            decreases combined.len() - i,
        {
            assert(combined@.take(i + 1).drop_last() =~= combined@.take(i as int));
            if combined[i] == '\n' {
                self.complete_line_at(&combined, line_start, i);
                line_start = i + 1;
            } else {
                assert(combined@.subrange(line_start as int, i + 1) =~= combined@.subrange(
                    line_start as int,
                    i as int,
                ).push(combined@[i as int]));
            }
            i = i + 1;
        }
        assert(combined@.take(combined.len() as int) =~= combined@);
        self.tail_buffer = string_of(&combined, line_start, combined.len());
        self.trim_to_limit();
    }

    /// Drop the oldest lines beyond `LINE_LIMIT`, then rebuild the filter index.
    fn trim_to_limit(&mut self)
        ensures
            final(self).state() == trim(old(self).state(), old(self).filters),
            final(self).same_settings(old(self)),
    {
        let len = self.lines.len();
        if len > LINE_LIMIT {
            let n = len - LINE_LIMIT;
            let ghost before = self.lines@;
            let mut k: usize = 0;
            while k < n
                invariant
                    k <= n,
                    n == before.len() - LINE_LIMIT,
                    self.lines@ == before.skip(k as int),
                    self.filter_indices@ == old(self).filter_indices@,
                    self.tail_buffer@ == old(self).tail_buffer@,
                    self.seeking_first_header == old(self).seeking_first_header,
                    self.same_settings(old(self)),
                decreases n - k,
            {
                self.lines.pop_front();
                assert(before.skip(k + 1) =~= before.skip(k as int).subrange(1, before.skip(k as int).len() as int));
                k = k + 1;
            }
            assert(line_views(before.skip(n as int)) =~= line_views(before).skip(n as int));
            self.rebuild_filter_indices();
        }
    }

    /// Fully rebuild the filter index from `lines` and `filters`.
    fn rebuild_filter_indices(&mut self)
        ensures
            final(self).filter_indices@ == matching_indices(line_views(old(self).lines@), old(self).filters),
            final(self).lines@ == old(self).lines@,
            final(self).tail_buffer@ == old(self).tail_buffer@,
            final(self).seeking_first_header == old(self).seeking_first_header,
            final(self).same_settings(old(self)),
    {
        let ghost views = line_views(self.lines@);
        self.filter_indices.clear();
        let n = self.lines.len();
        let mut i: usize = 0;
        while i < n
            invariant
                n == self.lines@.len(),
                i <= n,
                views == line_views(self.lines@),
                self.lines@ == old(self).lines@,
                self.tail_buffer@ == old(self).tail_buffer@,
                self.seeking_first_header == old(self).seeking_first_header,
                self.same_settings(old(self)),
                self.filter_indices@ == matching_indices(views.take(i as int), self.filters),
            decreases n - i,
        {
            let m = self.filters.matches(self.lines[i].level);
            if m {
                self.filter_indices.push(i);
            }
            assert(views.take(i + 1).drop_last() =~= views.take(i as int));
            i = i + 1;
        }
        assert(views.take(n as int) =~= views);
    }
}

/// The persisted log viewer settings (`C` is the coordinate scalar type).
#[derive(Debug, Clone, Copy)]
pub struct LogViewerConfig<C> {
    pub visible: bool,
    pub x: Option<C>,
    pub y: Option<C>,
    pub width: Option<C>,
    pub height: Option<C>,
    pub show_error: bool,
    pub show_warn: bool,
    pub show_info: bool,
    pub show_debug: bool,
    pub follow_tail: bool,
}

/// The geometry a configuration describes: present only when all four values are.
pub open spec fn config_geometry<C>(cfg: LogViewerConfig<C>) -> Option<Geometry<C>> {
    match (cfg.x, cfg.y, cfg.width, cfg.height) {
        (Some(x), Some(y), Some(w), Some(h)) => Some(([x, y], [w, h])),
        _ => None,
    }
}

/// Position and size as the four persisted values `(x, y, width, height)`.
pub open spec fn exported_coords<C>(g: Option<Geometry<C>>) -> (Option<C>, Option<C>, Option<C>, Option<C>) {
    match g {
        Some(g) => (Some(g.0[0]), Some(g.0[1]), Some(g.1[0]), Some(g.1[1])),
        None => (None, None, None, None),
    }
}

/// Window visibility and the two geometries: `(visible, apply_geometry, last_geometry)`.
pub type WindowView<C> = (bool, Option<Geometry<C>>, Option<Geometry<C>>);

/// Effect of `show`: visible, and the last geometry is re-applied unless one is pending.
pub open spec fn show_spec<C>(w: WindowView<C>) -> WindowView<C> {
    (true, if w.1 is None { w.2 } else { w.1 }, w.2)
}

/// Effect of `hide`: a visible window snapshots its last geometry for the next show.
pub open spec fn hide_spec<C>(w: WindowView<C>) -> WindowView<C> {
    (false, if w.0 { w.2 } else { w.1 }, w.2)
}

/// Effect of `toggle_visible`.
pub open spec fn toggle_spec<C>(w: WindowView<C>) -> WindowView<C> {
    if w.0 {
        hide_spec(w)
    } else {
        show_spec(w)
    }
}

impl<C: Copy> LogViewerModel<C> {
    /// Initialize from the persisted configuration. The geometry is adopted only
    /// when position and size are all present; it becomes both the geometry to apply
    /// and the last known geometry.
    pub fn from_config(cfg: &LogViewerConfig<C>) -> (r: Self)
        ensures
            r.visible == cfg.visible,
            r.filters == (LevelFilters {
                show_error: cfg.show_error,
                show_warn: cfg.show_warn,
                show_info: cfg.show_info,
                show_debug: cfg.show_debug,
            }),
            r.follow_tail == cfg.follow_tail,
            r.apply_geometry == config_geometry(*cfg),
            r.last_geometry == config_geometry(*cfg),
            r.state() == (ParseState { lines: Seq::empty(), indices: Seq::empty(), cur: Seq::empty(), seeking: true }),
            r.last_offset == 0,
    {
        let geometry = match (cfg.x, cfg.y, cfg.width, cfg.height) {
            (Some(x), Some(y), Some(w), Some(h)) => Some(([x, y], [w, h])),
            _ => None,
        };
        let r = Self {
            visible: cfg.visible,
            last_offset: 0,
            lines: VecDeque::new(),
            filter_indices: Vec::new(),
            filters: LevelFilters {
                show_error: cfg.show_error,
                show_warn: cfg.show_warn,
                show_info: cfg.show_info,
                show_debug: cfg.show_debug,
            },
            follow_tail: cfg.follow_tail,
            apply_geometry: geometry,
            last_geometry: geometry,
            tail_buffer: String::new(),
            seeking_first_header: true,
        };
        assert(line_views(r.lines@) =~= Seq::empty());
        r
    }

    /// The settings to persist. Position and size come from `last_geometry`
    /// (all four absent when it is).
    pub fn export_config(&self) -> (r: LogViewerConfig<C>)
        ensures
            r.visible == self.visible,
            r.show_error == self.filters.show_error,
            r.show_warn == self.filters.show_warn,
            r.show_info == self.filters.show_info,
            r.show_debug == self.filters.show_debug,
            r.follow_tail == self.follow_tail,
            (r.x, r.y, r.width, r.height) == exported_coords(self.last_geometry),
    {
        let (x, y, width, height) = match self.last_geometry {
            Some((p, sz)) => (Some(p[0]), Some(p[1]), Some(sz[0]), Some(sz[1])),
            None => (None, None, None, None),
        };
        LogViewerConfig {
            visible: self.visible,
            x,
            y,
            width,
            height,
            show_error: self.filters.show_error,
            show_warn: self.filters.show_warn,
            show_info: self.filters.show_info,
            show_debug: self.filters.show_debug,
            follow_tail: self.follow_tail,
        }
    }

    /// Turn on visibility; when no geometry is pending, the last known one is re-applied
    /// (a pending one is kept, so repeated calls are harmless).
    pub fn show(&mut self)
        ensures
            final(self).window() == show_spec(old(self).window()),
            final(self).state() == old(self).state(),
            final(self).filters == old(self).filters,
            final(self).follow_tail == old(self).follow_tail,
            final(self).last_offset == old(self).last_offset,
    {
        self.visible = true;
        if self.apply_geometry.is_none() {
            self.apply_geometry = self.last_geometry;
        }
    }

    /// Turn off visibility. A visible window snapshots `last_geometry` into
    /// `apply_geometry` so the next `show` reopens at the same position.
    pub fn hide_window(&mut self)
        ensures
            final(self).window() == hide_spec(old(self).window()),
            final(self).state() == old(self).state(),
            final(self).filters == old(self).filters,
            final(self).follow_tail == old(self).follow_tail,
            final(self).last_offset == old(self).last_offset,
    {
        if self.visible {
            self.apply_geometry = self.last_geometry;
        }
        self.visible = false;
    }

    /// Toggle visibility (used by the top-bar button).
    pub fn toggle_visible(&mut self)
        ensures
            final(self).window() == toggle_spec(old(self).window()),
            final(self).state() == old(self).state(),
            final(self).filters == old(self).filters,
            final(self).follow_tail == old(self).follow_tail,
            final(self).last_offset == old(self).last_offset,
    {
        if self.visible {
            self.hide_window();
        } else {
            self.show();
        }
    }
}

impl<C> LogViewerModel<C> {
    /// Visibility and geometries of this model.
    pub open spec fn window(&self) -> WindowView<C> {
        (self.visible, self.apply_geometry, self.last_geometry)
    }

    /// Replace the level filter and rebuild the index immediately.
    pub fn set_filters(&mut self, filters: LevelFilters)
        ensures
            final(self).filters == filters,
            final(self).filter_indices@ == matching_indices(line_views(old(self).lines@), filters),
            final(self).lines@ == old(self).lines@,
            final(self).tail_buffer@ == old(self).tail_buffer@,
            final(self).seeking_first_header == old(self).seeking_first_header,
            final(self).visible == old(self).visible,
            final(self).follow_tail == old(self).follow_tail,
            final(self).apply_geometry == old(self).apply_geometry,
            final(self).last_geometry == old(self).last_geometry,
            final(self).last_offset == old(self).last_offset,
    {
        self.filters = filters;
        self.rebuild_filter_indices();
    }

    /// Take in what the log buffer holds past `last_offset`: `new_text` is that text
    /// (if any) and `total_written` the buffer's total written count, which becomes
    /// the next read offset.
    pub fn poll(&mut self, new_text: Option<&str>, total_written: usize)
        ensures
            final(self).last_offset == total_written,
            final(self).state() == match new_text {
                Some(t) => ingest_spec(old(self).state(), old(self).filters, t@),
                None => old(self).state(),
            },
            final(self).window() == old(self).window(),
            final(self).filters == old(self).filters,
            final(self).follow_tail == old(self).follow_tail,
    {
        self.last_offset = total_written;
        if let Some(text) = new_text {
            self.ingest(text);
        }
    }
}

/// Where a reader resumes in a log buffer that keeps the last `retained` of the
/// `total_written` bytes ever written, having read the first `offset` of them:
/// nothing when nothing new was written; otherwise the byte index into the kept
/// text (its start when the unread bytes begin before what is kept).
pub fn resume_index(offset: usize, total_written: usize, retained: usize) -> (r: Option<usize>)
    requires
        retained <= total_written,
    ensures
        offset >= total_written ==> r is None,
        offset < total_written ==> r == Some((if offset >= total_written - retained {
            offset - (total_written - retained)
        } else {
            0
        }) as usize),
{
    if offset >= total_written {
        return None;
    }
    let start_of_data = total_written - retained;
    if offset >= start_of_data {
        Some(offset - start_of_data)
    } else {
        Some(0)
    }
}

impl<C> Default for LogViewerModel<C> {
    fn default() -> (r: Self)
        ensures
            r.visible == false,
            r.last_offset == 0,
            r.state() == (ParseState { lines: Seq::empty(), indices: Seq::empty(), cur: Seq::empty(), seeking: true }),
            r.filters == (LevelFilters { show_error: true, show_warn: true, show_info: true, show_debug: false }),
            r.follow_tail == true,
            r.apply_geometry is None,
            r.last_geometry is None,
    {
        let r = Self {
            visible: false,
            last_offset: 0,
            lines: VecDeque::new(),
            filter_indices: Vec::new(),
            filters: LevelFilters::default(),
            follow_tail: true,
            apply_geometry: None,
            last_geometry: None,
            tail_buffer: String::new(),
            seeking_first_header: true,
        };
        assert(line_views(r.lines@) =~= Seq::empty());
        r
    }
}

// ---------------------------------------------------------------------------
// Laws
// ---------------------------------------------------------------------------

/// `matching_indices` depends only on the levels of the lines.
proof fn lemma_matching_same_levels(a: Seq<LineView>, b: Seq<LineView>, f: LevelFilters)
    requires
        a.len() == b.len(),
        forall|i: int| 0 <= i < a.len() ==> #[trigger] a[i].0 == b[i].0,
    ensures
        matching_indices(a, f) == matching_indices(b, f),
    decreases a.len(),
{
    if a.len() > 0 {
        lemma_matching_same_levels(a.drop_last(), b.drop_last(), f);
    }
}

/// Appending a line keeps the filtered index consistent.
proof fn lemma_push_consistent(st: ParseState, f: LevelFilters, l: LineView)
    requires
        st.indices == matching_indices(st.lines, f),
    ensures
        push_view(st, f, l).indices == matching_indices(push_view(st, f, l).lines, f),
{
    assert(st.lines.push(l).drop_last() =~= st.lines);
}

/// One character keeps the filtered index consistent, and a pending line free of
/// `\n` stays so.
proof fn lemma_feed_consistent(st: ParseState, f: LevelFilters, c: char)
    requires
        st.indices == matching_indices(st.lines, f),
    ensures
        feed(st, f, c).indices == matching_indices(feed(st, f, c).lines, f),
        !st.cur.contains('\n') ==> !feed(st, f, c).cur.contains('\n'),
{
    if c == '\n' {
        let s0 = ParseState { lines: st.lines, indices: st.indices, cur: Seq::empty(), seeking: st.seeking };
        let line = strip_cr(st.cur);
        match parse_header(line) {
            Some(h) => {
                lemma_push_consistent(
                    ParseState { lines: s0.lines, indices: s0.indices, cur: s0.cur, seeking: false },
                    f,
                    h,
                );
            },
            None => {
                if !s0.seeking && s0.lines.len() > 0 {
                    let last = s0.lines.last();
                    let upd = s0.lines.update(
                        s0.lines.len() - 1,
                        (last.0, last.1, last.2 + seq!['\n'] + line),
                    );
                    lemma_matching_same_levels(upd, s0.lines, f);
                } else if !s0.seeking {
                    lemma_push_consistent(s0, f, (LogLevel::Unknown, Seq::empty(), line));
                }
            },
        }
    } else {
        if !st.cur.contains('\n') {
            assert forall|i: int| 0 <= i < st.cur.push(c).len() implies st.cur.push(c)[i] != '\n' by {
                if i < st.cur.len() {
                    assert(st.cur[i] != '\n');
                }
            }
        }
    }
}

/// A run of characters keeps the filtered index consistent, and the pending line
/// holds no `\n` afterwards when it held none before.
proof fn lemma_feed_all_consistent(st: ParseState, f: LevelFilters, text: Seq<char>)
    requires
        st.indices == matching_indices(st.lines, f),
    ensures
        feed_all(st, f, text).indices == matching_indices(feed_all(st, f, text).lines, f),
        !st.cur.contains('\n') ==> !feed_all(st, f, text).cur.contains('\n'),
    decreases text.len(),
{
    if text.len() > 0 {
        lemma_feed_all_consistent(st, f, text.drop_last());
        lemma_feed_consistent(feed_all(st, f, text.drop_last()), f, text.last());
    }
}

/// Ingesting text keeps `filter_indices` equal to the indices of the lines that pass
/// the filters, whenever it was so before.
pub proof fn ingest_keeps_filter_index_consistent(st: ParseState, f: LevelFilters, text: Seq<char>)
    requires
        st.indices == matching_indices(st.lines, f),
    ensures
        ingest_spec(st, f, text).indices == matching_indices(ingest_spec(st, f, text).lines, f),
{
    if text.len() > 0 {
        let s0 = ParseState { lines: st.lines, indices: st.indices, cur: Seq::empty(), seeking: st.seeking };
        lemma_feed_all_consistent(s0, f, st.cur + text);
    }
}

/// After ingesting non-empty text at most `LINE_LIMIT` lines remain, and the carried
/// fragment holds no line break.
pub proof fn ingest_caps_lines_and_carries_no_break(st: ParseState, f: LevelFilters, text: Seq<char>)
    requires
        text.len() > 0,
    ensures
        ingest_spec(st, f, text).lines.len() <= LINE_LIMIT,
        !ingest_spec(st, f, text).cur.contains('\n'),
{
    let s0 = ParseState {
        lines: st.lines,
        indices: matching_indices(st.lines, f),
        cur: Seq::empty(),
        seeking: st.seeking,
    };
    let s1 = ParseState { lines: st.lines, indices: st.indices, cur: Seq::empty(), seeking: st.seeking };
    lemma_feed_all_consistent(s0, f, st.cur + text);
    lemma_feed_all_cur(s0, s1, f, st.cur + text);
}

/// The pending line and the lines do not depend on the indices held.
proof fn lemma_feed_all_cur(a: ParseState, b: ParseState, f: LevelFilters, text: Seq<char>)
    requires
        a.lines == b.lines,
        a.cur == b.cur,
        a.seeking == b.seeking,
    ensures
        feed_all(a, f, text).lines == feed_all(b, f, text).lines,
        feed_all(a, f, text).cur == feed_all(b, f, text).cur,
        feed_all(a, f, text).seeking == feed_all(b, f, text).seeking,
    decreases text.len(),
{
    if text.len() > 0 {
        lemma_feed_all_cur(a, b, f, text.drop_last());
    }
}

/// Feeding `a` then `b` is feeding `a + b`.
proof fn lemma_feed_all_concat(st: ParseState, f: LevelFilters, a: Seq<char>, b: Seq<char>)
    ensures
        feed_all(st, f, a + b) == feed_all(feed_all(st, f, a), f, b),
    decreases b.len(),
{
    if b.len() == 0 {
        assert(a + b =~= a);
    } else {
        assert((a + b).drop_last() =~= a + b.drop_last());
        assert((a + b).last() == b.last());
        lemma_feed_all_concat(st, f, a, b.drop_last());
    }
}

/// Characters other than `\n` only extend the pending line.
proof fn lemma_feed_all_no_break(st: ParseState, f: LevelFilters, c: Seq<char>)
    requires
        !c.contains('\n'),
    ensures
        feed_all(st, f, c) == (ParseState { cur: st.cur + c, ..st }),
    decreases c.len(),
{
    if c.len() == 0 {
        assert(st.cur + c =~= st.cur);
    } else {
        assert(!c.drop_last().contains('\n')) by {
            if c.drop_last().contains('\n') {
                let i = choose|i: int| 0 <= i < c.drop_last().len() && c.drop_last()[i] == '\n';
                assert(c[i] == '\n');
            }
        }
        assert(c.last() != '\n') by {
            assert(c[c.len() - 1] == c.last());
        }
        lemma_feed_all_no_break(st, f, c.drop_last());
        assert((st.cur + c.drop_last()).push(c.last()) =~= st.cur + c);
    }
}

/// The state with its oldest `k` lines dropped.
pub open spec fn skip_lines(st: ParseState, k: int, indices: Seq<usize>) -> ParseState {
    ParseState { lines: st.lines.skip(k), indices, cur: st.cur, seeking: st.seeking }
}

/// Feeding never removes lines.
proof fn lemma_feed_all_grows(st: ParseState, f: LevelFilters, text: Seq<char>)
    ensures
        feed_all(st, f, text).lines.len() >= st.lines.len(),
    decreases text.len(),
{
    if text.len() > 0 {
        lemma_feed_all_grows(st, f, text.drop_last());
    }
}

/// Dropping old lines commutes with feeding, as long as a line is left.
proof fn lemma_feed_skip(st: ParseState, f: LevelFilters, c: char, k: int, idx: Seq<usize>)
    requires
        0 <= k < st.lines.len(),
    ensures
        feed(skip_lines(st, k, idx), f, c).lines == feed(st, f, c).lines.skip(k),
        feed(skip_lines(st, k, idx), f, c).cur == feed(st, f, c).cur,
        feed(skip_lines(st, k, idx), f, c).seeking == feed(st, f, c).seeking,
{
    let s2 = skip_lines(st, k, idx);
    if c == '\n' {
        let line = strip_cr(st.cur);
        match parse_header(line) {
            Some(h) => {
                assert(st.lines.push(h).skip(k) =~= st.lines.skip(k).push(h));
            },
            None => {
                if !st.seeking {
                    let last = st.lines.last();
                    assert(s2.lines.last() == last);
                    assert(st.lines.update(st.lines.len() - 1, (last.0, last.1, last.2 + seq!['\n'] + line)).skip(k)
                        =~= s2.lines.update(s2.lines.len() - 1, (last.0, last.1, last.2 + seq!['\n'] + line)));
                }
            },
        }
    }
}

proof fn lemma_feed_all_skip(st: ParseState, f: LevelFilters, text: Seq<char>, k: int, idx: Seq<usize>)
    requires
        0 <= k < st.lines.len(),
    ensures
        feed_all(skip_lines(st, k, idx), f, text).lines == feed_all(st, f, text).lines.skip(k),
        feed_all(skip_lines(st, k, idx), f, text).cur == feed_all(st, f, text).cur,
        feed_all(skip_lines(st, k, idx), f, text).seeking == feed_all(st, f, text).seeking,
    decreases text.len(),
{
    if text.len() > 0 {
        lemma_feed_all_skip(st, f, text.drop_last(), k, idx);
        let a = feed_all(st, f, text.drop_last());
        let b = feed_all(skip_lines(st, k, idx), f, text.drop_last());
        lemma_feed_all_grows(st, f, text.drop_last());
        assert(b == skip_lines(a, k, b.indices));
        lemma_feed_skip(a, f, text.last(), k, b.indices);
    }
}

/// Capping the lines before feeding more text and capping again gives what
/// capping once at the end gives.
proof fn lemma_trim_feed(x: ParseState, f: LevelFilters, b: Seq<char>)
    requires
        x.indices == matching_indices(x.lines, f),
    ensures
        trim(feed_all(trim(x, f), f, b), f) == trim(feed_all(x, f, b), f),
{
    lemma_feed_all_consistent(x, f, b);
    if x.lines.len() > LINE_LIMIT {
        let k = x.lines.len() - LINE_LIMIT;
        let tx = trim(x, f);
        assert(tx == skip_lines(x, k, tx.indices));
        lemma_feed_all_skip(x, f, b, k, tx.indices);
        lemma_feed_all_consistent(tx, f, b);
        lemma_feed_all_grows(x, f, b);
        let y = feed_all(x, f, b);
        let z = feed_all(tx, f, b);
        assert(z.lines.len() == y.lines.len() - k);
        if z.lines.len() > LINE_LIMIT {
            assert(z.lines.skip(z.lines.len() - LINE_LIMIT) =~= y.lines.skip(y.lines.len() - LINE_LIMIT));
        } else {
            assert(z.lines =~= y.lines.skip(y.lines.len() - LINE_LIMIT));
        }
    }
}

/// Text ingested in two pieces is parsed as if it came in one: the line
/// fragment left at the end of the first piece is carried into the second.
/// (The filter index of the parser state has to be consistent with its lines
/// and filters, as every state ingesting produces.)
pub proof fn ingest_in_pieces_is_ingest_whole(st: ParseState, f: LevelFilters, a: Seq<char>, b: Seq<char>)
    requires
        st.indices == matching_indices(st.lines, f),
    ensures
        ingest_spec(ingest_spec(st, f, a), f, b) == ingest_spec(st, f, a + b),
{
    if a.len() == 0 {
        assert(a + b =~= b);
    } else if b.len() == 0 {
        assert(a + b =~= a);
    } else {
        let s0 = ParseState { lines: st.lines, indices: st.indices, cur: Seq::empty(), seeking: st.seeking };
        let x = feed_all(s0, f, st.cur + a);
        lemma_feed_all_consistent(s0, f, st.cur + a);
        assert(!s0.cur.contains('\n'));
        let tx = trim(x, f);
        let cur1 = tx.cur;
        assert(cur1 == x.cur);
        let c0 = ParseState { lines: tx.lines, indices: tx.indices, cur: Seq::empty(), seeking: tx.seeking };
        lemma_feed_all_concat(c0, f, cur1, b);
        lemma_feed_all_no_break(c0, f, cur1);
        assert(Seq::<char>::empty() + cur1 =~= cur1);
        assert(feed_all(c0, f, cur1) == tx);
        lemma_trim_feed(x, f, b);
        assert(st.cur + (a + b) =~= (st.cur + a) + b);
        lemma_feed_all_concat(s0, f, st.cur + a, b);
    }
}

/// Closing a visible window and opening it again applies the geometry it last had.
pub proof fn hide_then_show_restores_geometry<C>(w: WindowView<C>)
    requires
        w.0,
    ensures
        show_spec(hide_spec(w)) == (true, w.2, w.2),
{
}

/// Toggling a visible window twice reopens it at the geometry it last had.
pub proof fn toggle_twice_restores_geometry<C>(w: WindowView<C>)
    requires
        w.0,
    ensures
        toggle_spec(toggle_spec(w)) == (true, w.2, w.2),
{
}

/// Showing twice is the same as showing once.
pub proof fn show_is_idempotent<C>(w: WindowView<C>)
    ensures
        show_spec(show_spec(w)) == show_spec(w),
{
}

/// A configuration with position and size exports the same four values after
/// `from_config` (the model's last geometry is the configured one).
pub proof fn config_geometry_round_trip<C>(cfg: LogViewerConfig<C>)
    requires
        cfg.x is Some,
        cfg.y is Some,
        cfg.width is Some,
        cfg.height is Some,
    ensures
        exported_coords(config_geometry(cfg)) == (cfg.x, cfg.y, cfg.width, cfg.height),
{
}


proof fn lemma_matching_indices(lines: Seq<LineView>, f: LevelFilters, i: int)
    requires
        0 <= i < lines.len(),
        lines.len() <= usize::MAX,
    ensures
        matching_indices(lines, f).contains(i as usize) <==> f.passes(lines[i].0),
    decreases lines.len(),
{
    lemma_matching_below(lines, f);
    if i < lines.len() - 1 {
        lemma_matching_indices(lines.drop_last(), f, i);
        assert(lines.drop_last()[i] == lines[i]);
        let prev = matching_indices(lines.drop_last(), f);
        lemma_matching_below(lines.drop_last(), f);
        if f.passes(lines.last().0) {
            let cur = prev.push((lines.len() - 1) as usize);
            if cur.contains(i as usize) {
                let q = choose|q: int| 0 <= q < cur.len() && cur[q] == i as usize;
                if q == prev.len() {
                    assert(false);
                } else {
                    assert(prev[q] == i as usize);
                }
            }
            if prev.contains(i as usize) {
                let q = choose|q: int| 0 <= q < prev.len() && prev[q] == i as usize;
                assert(cur[q] == i as usize);
            }
        }
    } else {
        let prev = matching_indices(lines.drop_last(), f);
        lemma_matching_below(lines.drop_last(), f);
        if f.passes(lines.last().0) {
            let cur = prev.push((lines.len() - 1) as usize);
            assert(cur[prev.len() as int] == i as usize);
        } else {
            if prev.contains(i as usize) {
                let q = choose|q: int| 0 <= q < prev.len() && prev[q] == i as usize;
                assert(prev[q] < lines.len() - 1);
            }
        }
    }
}

proof fn lemma_matching_below(lines: Seq<LineView>, f: LevelFilters)
    requires
        lines.len() <= usize::MAX,
    ensures
        forall|q: int| 0 <= q < matching_indices(lines, f).len() ==> (#[trigger] matching_indices(lines, f)[q] as int) < lines.len(),
    decreases lines.len(),
{
    if lines.len() > 0 {
        lemma_matching_below(lines.drop_last(), f);
        let prev = matching_indices(lines.drop_last(), f);
        assert forall|q: int| 0 <= q < matching_indices(lines, f).len() implies (#[trigger] matching_indices(lines, f)[q] as int) < lines.len() by {
            if q < prev.len() {
                assert(matching_indices(lines, f)[q] == prev[q]);
            }
        }
    }
}

/// Each line is shown exactly when the flag of its own level is on: an error
/// line by `show_error`, a warning by `show_warn`, an info line by `show_info`,
/// debug and trace lines by `show_debug`, and a line of unknown level always.
/// No flag hides lines of another level.
pub proof fn shown_lines_follow_their_level_flag(lines: Seq<LineView>, f: LevelFilters, i: int)
    requires
        0 <= i < lines.len() <= usize::MAX,
    ensures
        lines[i].0 is Error ==> (matching_indices(lines, f).contains(i as usize) <==> f.show_error),
        lines[i].0 is Warn ==> (matching_indices(lines, f).contains(i as usize) <==> f.show_warn),
        lines[i].0 is Info ==> (matching_indices(lines, f).contains(i as usize) <==> f.show_info),
        lines[i].0 is Debug || lines[i].0 is Trace ==> (matching_indices(lines, f).contains(i as usize) <==> f.show_debug),
        lines[i].0 is Unknown ==> matching_indices(lines, f).contains(i as usize),
{
    lemma_matching_indices(lines, f, i);
}

} // verus!
