//! The text-editing buffer: a single text value addressed by a
//! character-based cursor, with a vertical scroll offset.
//!
//! Lines are logical: the buffer is split on the newline character alone,
//! so a text with `n` newlines has `n + 1` lines (a trailing newline opens
//! a final empty line).
use vstd::prelude::*;

verus! {

/// Number of newline characters in `s`.
pub open spec fn nl_count(s: Seq<char>) -> nat
    decreases s.len(),
{
    if s.len() == 0 {
        0
    } else {
        nl_count(s.drop_last()) + (if s.last() == '\n' {
            1nat
        } else {
            0nat
        })
    }
}

/// Column of position `p` in `s`: the distance from `p` back to the
/// nearest newline before it (or to the start of the text).
pub open spec fn col_at(s: Seq<char>, p: int) -> int
    decreases p,
{
    if p <= 0 {
        0
    } else if s[p - 1] == '\n' {
        0
    } else {
        col_at(s, p - 1) + 1
    }
}

/// Line index of position `p` in `s`: the number of newlines before `p`.
pub open spec fn line_of(s: Seq<char>, p: int) -> int {
    nl_count(s.take(p)) as int
}

/// Length of the logical line that starts at position `q`: the number of
/// characters from `q` up to the next newline or the end of the text.
pub open spec fn line_len_from(s: Seq<char>, q: int) -> int
    decreases s.len() - q,
{
    if q < 0 || q >= s.len() {
        0
    } else if s[q] == '\n' {
        0
    } else {
        1 + line_len_from(s, q + 1)
    }
}

/// Start position of the line containing `p`.
pub open spec fn start_of(s: Seq<char>, p: int) -> int {
    p - col_at(s, p)
}

/// Cursor position after a one-line upward move from `p`: the same column
/// on the previous line, clamped to that line's length; unchanged on the
/// first line.
pub open spec fn up_pos(s: Seq<char>, p: int) -> int {
    let c = col_at(s, p);
    let q = p - c;
    if q == 0 {
        p
    } else {
        let prev_len = col_at(s, q - 1);
        let prev_start = q - 1 - prev_len;
        prev_start + (if c < prev_len {
            c
        } else {
            prev_len
        })
    }
}

/// Cursor position after a one-line downward move from `p`: the same column
/// on the next line, clamped to that line's length; unchanged on the last
/// line.
pub open spec fn down_pos(s: Seq<char>, p: int) -> int {
    let c = col_at(s, p);
    let q = p - c;
    let cur_len = line_len_from(s, q);
    if q + cur_len >= s.len() {
        p
    } else {
        let next_start = q + cur_len + 1;
        let next_len = line_len_from(s, next_start);
        next_start + (if c < next_len {
            c
        } else {
            next_len
        })
    }
}

/// The text after inserting `c` at character position `p`.
pub open spec fn insert_at(s: Seq<char>, p: int, c: char) -> Seq<char> {
    s.take(p).push(c) + s.skip(p)
}

/// The text after inserting the characters of `cs` one by one, each at
/// the cursor, starting with the cursor at `p`: the `k`-th insertion
/// lands at position `p + k`, as `insert_char` leaves the cursor right
/// after the inserted character.
pub open spec fn insert_all(s: Seq<char>, p: int, cs: Seq<char>) -> Seq<char>
    decreases cs.len(),
{
    if cs.len() == 0 {
        s
    } else {
        insert_all(insert_at(s, p, cs[0]), p + 1, cs.skip(1))
    }
}

/// Start position of the `i`-th logical line (line 0 starts at 0, each
/// further line right after the previous line's newline).
pub open spec fn line_start_pos(s: Seq<char>, i: int) -> int
    decreases i,
{
    if i <= 0 {
        0
    } else {
        let prev = line_start_pos(s, i - 1);
        prev + line_len_from(s, prev) + 1
    }
}

/// Content of the `i`-th logical line; empty beyond the last line.
pub open spec fn line_seq(s: Seq<char>, i: int) -> Seq<char> {
    if 0 <= i <= nl_count(s) {
        let a = line_start_pos(s, i);
        s.subrange(a, a + line_len_from(s, a))
    } else {
        Seq::<char>::empty()
    }
}

/// The scroll offset that keeps the cursor's line inside a window of
/// `vh` lines: pulled up to the line if the line is above the window,
/// pushed down just far enough if the line is below it.
pub open spec fn scroll_target(scroll: int, line: int, vh: int) -> int {
    if line < scroll {
        line
    } else if line >= scroll + vh {
        line - vh + 1
    } else {
        scroll
    }
}

/// Counting newlines in a prefix grows by one exactly at a newline.
pub proof fn lemma_nl_count_take_step(s: Seq<char>, i: int)
    requires
        0 <= i < s.len(),
    ensures
        nl_count(s.take(i + 1)) == nl_count(s.take(i)) + (if s[i] == '\n' {
            1int
        } else {
            0int
        }),
{
    assert(s.take(i + 1).drop_last() =~= s.take(i));
    assert(s.take(i + 1).last() == s[i]);
}

/// The column never exceeds the position, the line start is either the
/// text's start or right after a newline, and the characters between the
/// line start and the position are not newlines.
pub proof fn lemma_col_props(s: Seq<char>, p: int)
    requires
        0 <= p <= s.len(),
    ensures
        0 <= col_at(s, p) <= p,
        start_of(s, p) == 0 || s[start_of(s, p) - 1] == '\n',
        forall|i: int| start_of(s, p) <= i < p ==> s[i] != '\n',
    decreases p,
{
    if p > 0 && s[p - 1] != '\n' {
        lemma_col_props(s, p - 1);
    }
}

/// A line spans no newline, stays inside the text, and ends at a newline
/// or at the end of the text.
pub proof fn lemma_line_len_props(s: Seq<char>, q: int)
    requires
        0 <= q <= s.len(),
    ensures
        0 <= line_len_from(s, q),
        q + line_len_from(s, q) <= s.len(),
        forall|i: int| q <= i < q + line_len_from(s, q) ==> s[i] != '\n',
        q + line_len_from(s, q) == s.len() || s[q + line_len_from(s, q)] == '\n',
    decreases s.len() - q,
{
    if q < s.len() && s[q] != '\n' {
        lemma_line_len_props(s, q + 1);
    }
}

/// A stretch of non-newline characters closed off by a newline or the end
/// of the text is exactly one line.
pub proof fn lemma_line_len_eq(s: Seq<char>, a: int, b: int)
    requires
        0 <= a <= b <= s.len(),
        forall|i: int| a <= i < b ==> s[i] != '\n',
        b == s.len() || s[b] == '\n',
    ensures
        line_len_from(s, a) == b - a,
    decreases b - a,
{
    if a < b {
        lemma_line_len_eq(s, a + 1, b);
    }
}

/// Within a line, the column counts from the line's start.
pub proof fn lemma_col_from_start(s: Seq<char>, q: int, c: int)
    requires
        0 <= q,
        q + c <= s.len(),
        q == 0 || s[q - 1] == '\n',
        0 <= c <= line_len_from(s, q),
    ensures
        col_at(s, q + c) == c,
    decreases c,
{
    if c > 0 {
        lemma_line_len_props(s, q);
        lemma_col_from_start(s, q, c - 1);
    }
}

/// Within a line, every position lies on the same line as the line's start.
pub proof fn lemma_line_of_within(s: Seq<char>, q: int, c: int)
    requires
        0 <= q,
        q + c <= s.len(),
        0 <= c <= line_len_from(s, q),
    ensures
        line_of(s, q + c) == line_of(s, q),
    decreases c,
{
    if c > 0 {
        lemma_line_len_props(s, q);
        lemma_line_of_within(s, q, c - 1);
        lemma_nl_count_take_step(s, q + c - 1);
    }
}

/// The column of a position never exceeds the length of its line.
pub proof fn lemma_col_le_line_len(s: Seq<char>, p: int)
    requires
        0 <= p <= s.len(),
    ensures
        col_at(s, p) <= line_len_from(s, start_of(s, p)),
    decreases p,
{
    lemma_col_props(s, p);
    let q = start_of(s, p);
    lemma_line_len_props(s, q);
    if line_len_from(s, q) < col_at(s, p) {
        assert(s[q + line_len_from(s, q)] != '\n');
    }
}

/// The line index of any prefix end never exceeds the total newline
/// count, and the whole text's line index is exactly that count.
pub proof fn lemma_line_of_le(s: Seq<char>, p: int)
    requires
        0 <= p <= s.len(),
    ensures
        line_of(s, p) <= nl_count(s),
        p == s.len() ==> line_of(s, p) == nl_count(s),
    decreases s.len() - p,
{
    if p == s.len() {
        assert(s.take(p) =~= s);
    } else {
        lemma_nl_count_take_step(s, p);
        lemma_line_of_le(s, p + 1);
    }
}

/// Start of the line containing position `p`, found by a left-to-right scan.
fn scan_line_start(v: &Vec<char>, p: usize) -> (r: usize)
    requires
        p <= v@.len(),
    ensures
        r as int == start_of(v@, p as int),
        r <= p,
{
    let mut start: usize = 0;
    let mut i: usize = 0;
    while i < p
        invariant
            0 <= i <= p <= v@.len(),
            start as int == start_of(v@, i as int),
            start <= i,
        decreases p - i,
    {
        if v[i] == '\n' {
            start = i + 1;
        }
        i = i + 1;
    }
    start
}

/// Length of the line starting at `q`, found by scanning to the next
/// newline or the end of the text.
fn line_len_at(v: &Vec<char>, q: usize) -> (r: usize)
    requires
        q <= v@.len(),
    ensures
        r as int == line_len_from(v@, q as int),
        q + r <= v@.len(),
{
    let mut j: usize = q;
    while j < v.len() && v[j] != '\n'
        invariant
            q <= j <= v@.len(),
            line_len_from(v@, q as int) == j - q + line_len_from(v@, j as int),
        decreases v@.len() - j,
    {
        j = j + 1;
    }
    j - q
}

/// Total number of newline characters in the text.
fn count_newlines(v: &Vec<char>) -> (r: usize)
    ensures
        r as int == nl_count(v@),
{
    let mut cnt: usize = 0;
    let mut i: usize = 0;
    while i < v.len()
        invariant
            0 <= i <= v@.len(),
            cnt <= i,
            cnt as int == nl_count(v@.take(i as int)),
        decreases v@.len() - i,
    {
        proof {
            lemma_nl_count_take_step(v@, i as int);
        }
        if v[i] == '\n' {
            cnt = cnt + 1;
        }
        i = i + 1;
    }
    proof {
        assert(v@.take(v@.len() as int) =~= v@);
    }
    cnt
}

/// The `i`-th logical line of the text, as its own vector of characters.
fn nth_line(v: &Vec<char>, i: usize) -> (r: Vec<char>)
    requires
        i as int <= nl_count(v@),
    ensures
        r@ == line_seq(v@, i as int),
{
    let ghost s = v@;
    let n = v.len();
    let mut a: usize = 0;
    let mut cnt: usize = 0;
    let mut j: usize = 0;
    while cnt < i
        invariant
            0 <= cnt <= i,
            i as int <= nl_count(s),
            a <= j <= n,
            n == s.len(),
            s == v@,
            cnt as int == line_of(s, j as int),
            a as int == start_of(s, j as int),
            a as int == line_start_pos(s, cnt as int),
        decreases s.len() - j,
    {
        proof {
            lemma_line_of_le(s, j as int);
            assert(j < n);
        }
        proof {
            lemma_nl_count_take_step(s, j as int);
            if s[j as int] == '\n' {
                lemma_col_props(s, j as int);
                lemma_line_len_eq(s, a as int, j as int);
            }
        }
        if v[j] == '\n' {
            cnt = cnt + 1;
            a = j + 1;
        }
        j = j + 1;
    }
    proof {
        lemma_line_len_props(s, a as int);
    }
    let b = line_len_at(v, a);
    let mut r: Vec<char> = Vec::new();
    let mut k: usize = 0;
    while k < b
        invariant
            0 <= k <= b,
            a + b <= n,
            n == v@.len(),
            r@.len() == k,
            forall|m: int| 0 <= m < k ==> r@[m] == v@[a + m],
        decreases b - k,
    {
        r.push(v[a + k]);
        k = k + 1;
    }
    proof {
        assert(r@ =~= s.subrange(a as int, a as int + b as int));
    }
    r
}

pub struct Editor {
    pub content: Vec<char>,
    pub cursor_position: usize,
    pub scroll_offset: usize,
}

impl Editor {
    /// The buffer's invariant: the cursor never passes the end of the text.
    pub open spec fn wf(&self) -> bool {
        self.cursor_position <= self.content.len()
    }

    pub fn new() -> (r: Editor)
        ensures
            r.wf(),
            r.content@ == Seq::<char>::empty(),
            r.cursor_position == 0,
            r.scroll_offset == 0,
    {
        Editor { content: Vec::new(), cursor_position: 0, scroll_offset: 0 }
    }

    /// Replaces the text; the cursor moves to the end (in characters) and
    /// the scroll resets.
    pub fn set_content(&mut self, content: String)
        ensures
            final(self).wf(),
            final(self).content@ == content@,
            final(self).cursor_position == content@.len(),
            final(self).scroll_offset == 0,
    {
        self.content = crate::text::string_to_chars(content.as_str());
        self.cursor_position = self.content.len();
        self.scroll_offset = 0;
    }

    /// The buffer's text as an owned string.
    pub fn get_content(&self) -> (r: String)
        ensures
            r@ == self.content@,
    {
        crate::text::chars_to_string(&self.content)
    }

    /// Inserts `c` at the cursor's character position and advances the
    /// cursor by one character.
    pub fn insert_char(&mut self, c: char)
        requires
            old(self).wf(),
        ensures
            final(self).wf(),
            final(self).content@ == insert_at(
                old(self).content@,
                old(self).cursor_position as int,
                c,
            ),
            final(self).content@.len() == old(self).content@.len() + 1,
            final(self).cursor_position == old(self).cursor_position + 1,
            final(self).scroll_offset == old(self).scroll_offset,
    {
        self.content.insert(self.cursor_position, c);
        let n = self.content.len();
        assert(self.cursor_position < n);
        self.cursor_position = self.cursor_position + 1;
        proof {
            assert(self.content@ =~= old(self).content@.take(old(self).cursor_position as int).push(
                c,
            ) + old(self).content@.skip(old(self).cursor_position as int));
        }
    }

    /// Inserts the line separator at the cursor.
    pub fn insert_newline(&mut self)
        requires
            old(self).wf(),
        ensures
            final(self).wf(),
            final(self).content@ == insert_at(
                old(self).content@,
                old(self).cursor_position as int,
                '\n',
            ),
            final(self).content@.len() == old(self).content@.len() + 1,
            final(self).cursor_position == old(self).cursor_position + 1,
            final(self).scroll_offset == old(self).scroll_offset,
    {
        self.insert_char('\n');
    }

    /// Removes the character immediately before the cursor and moves the
    /// cursor back by one; a no-op when the cursor is at the start.
    pub fn delete_char(&mut self)
        requires
            old(self).wf(),
        ensures
            final(self).wf(),
            final(self).scroll_offset == old(self).scroll_offset,
            old(self).cursor_position == 0 ==> *final(self) == *old(self),
            old(self).cursor_position > 0 ==> {
                &&& final(self).cursor_position == old(self).cursor_position - 1
                &&& final(self).content@ == old(self).content@.remove(
                    old(self).cursor_position - 1,
                )
            },
    {
        if self.cursor_position > 0 {
            self.cursor_position = self.cursor_position - 1;
            self.content.remove(self.cursor_position);
        }
    }

    /// The cursor's logical position as a (line, column) pair, both
    /// measured in characters.
    pub fn get_cursor_line_col(&self) -> (r: (usize, usize))
        requires
            self.wf(),
        ensures
            r.0 as int == line_of(self.content@, self.cursor_position as int),
            r.1 as int == col_at(self.content@, self.cursor_position as int),
    {
        let s = &self.content;
        let p = self.cursor_position;
        let mut line: usize = 0;
        let mut col: usize = 0;
        let mut i: usize = 0;
        while i < p
            invariant
                0 <= i <= p <= s@.len(),
                line <= i,
                col <= i,
                line as int == line_of(s@, i as int),
                col as int == col_at(s@, i as int),
            decreases p - i,
        {
            proof {
                lemma_nl_count_take_step(s@, i as int);
            }
            if s[i] == '\n' {
                line = line + 1;
                col = 0;
            } else {
                col = col + 1;
            }
            i = i + 1;
        }
        (line, col)
    }

    /// Moves the cursor to the previous logical line, to the same column
    /// clamped to that line's length; a no-op on the first line.
    pub fn move_cursor_up(&mut self)
        requires
            old(self).wf(),
        ensures
            final(self).wf(),
            final(self).content == old(self).content,
            final(self).scroll_offset == old(self).scroll_offset,
            final(self).cursor_position as int == up_pos(
                old(self).content@,
                old(self).cursor_position as int,
            ),
    {
        let p = self.cursor_position;
        let q = scan_line_start(&self.content, p);
        if q > 0 {
            let prev_start = scan_line_start(&self.content, q - 1);
            let prev_len = q - 1 - prev_start;
            let col = p - q;
            let new_col = if col < prev_len {
                col
            } else {
                prev_len
            };
            self.cursor_position = prev_start + new_col;
        }
    }

    /// Moves the cursor to the next logical line, to the same column
    /// clamped to that line's length; a no-op on the last line.
    pub fn move_cursor_down(&mut self)
        requires
            old(self).wf(),
        ensures
            final(self).wf(),
            final(self).content == old(self).content,
            final(self).scroll_offset == old(self).scroll_offset,
            final(self).cursor_position as int == down_pos(
                old(self).content@,
                old(self).cursor_position as int,
            ),
    {
        let p = self.cursor_position;
        let q = scan_line_start(&self.content, p);
        let cur_len = line_len_at(&self.content, q);
        if q + cur_len < self.content.len() {
            let next_start = q + cur_len + 1;
            let next_len = line_len_at(&self.content, next_start);
            let col = p - q;
            let new_col = if col < next_len {
                col
            } else {
                next_len
            };
            self.cursor_position = next_start + new_col;
        }
    }

    /// Moves the cursor one character left, stopping at the start.
    pub fn move_cursor_left(&mut self)
        requires
            old(self).wf(),
        ensures
            final(self).wf(),
            final(self).content == old(self).content,
            final(self).scroll_offset == old(self).scroll_offset,
            final(self).cursor_position == (if old(self).cursor_position > 0 {
                old(self).cursor_position - 1
            } else {
                0int
            }),
    {
        if self.cursor_position > 0 {
            self.cursor_position = self.cursor_position - 1;
        }
    }

    /// Moves the cursor one character right, stopping at the end of the text.
    pub fn move_cursor_right(&mut self)
        requires
            old(self).wf(),
        ensures
            final(self).wf(),
            final(self).content == old(self).content,
            final(self).scroll_offset == old(self).scroll_offset,
            final(self).cursor_position == (if old(self).cursor_position < old(
                self,
            ).content@.len() {
                old(self).cursor_position + 1
            } else {
                old(self).cursor_position as int
            }),
    {
        if self.cursor_position < self.content.len() {
            self.cursor_position = self.cursor_position + 1;
        }
    }

    /// The window of text shown to the renderer: exactly `height` lines
    /// starting at the scroll offset, padded with empty lines once the
    /// content runs out.
    pub fn get_display_lines(&self, height: usize) -> (r: Vec<String>)
        ensures
            r@.len() == height,
            forall|k: int|
                0 <= k < height ==> r@[k]@ == line_seq(
                    self.content@,
                    self.scroll_offset + k,
                ),
    {
        let nl = count_newlines(&self.content);
        let mut out: Vec<String> = Vec::new();
        let mut k: usize = 0;
        while k < height
            invariant
                0 <= k <= height,
                nl as int == nl_count(self.content@),
                out@.len() == k,
                forall|j: int|
                    0 <= j < k ==> out@[j]@ == line_seq(self.content@, self.scroll_offset + j),
            decreases height - k,
        {
            if self.scroll_offset <= nl && k <= nl - self.scroll_offset {
                let line = nth_line(&self.content, self.scroll_offset + k);
                out.push(crate::text::chars_to_string(&line));
            } else {
                out.push(String::new());
            }
            k = k + 1;
        }
        out
    }

    /// Re-derives the cursor's line and pulls the scroll offset so that
    /// the line falls within a window of `viewport_height` display lines.
    pub fn adjust_scroll(&mut self, viewport_height: usize)
        requires
            old(self).wf(),
            viewport_height >= 1,
        ensures
            final(self).wf(),
            final(self).content == old(self).content,
            final(self).cursor_position == old(self).cursor_position,
            final(self).scroll_offset as int == scroll_target(
                old(self).scroll_offset as int,
                line_of(old(self).content@, old(self).cursor_position as int),
                viewport_height as int,
            ),
            final(self).scroll_offset <= line_of(
                old(self).content@,
                old(self).cursor_position as int,
            ) < final(self).scroll_offset + viewport_height,
    {
        let (line, _col) = self.get_cursor_line_col();
        if line < self.scroll_offset {
            self.scroll_offset = line;
        } else if line - self.scroll_offset >= viewport_height {
            self.scroll_offset = line - viewport_height + 1;
        }
    }
}

/// Inserting a character at position `p` and then deleting the character
/// before the new cursor restores the original text: `delete_char` is a
/// local inverse of `insert_char`.
pub proof fn lemma_delete_undoes_insert(s: Seq<char>, p: int, c: char)
    requires
        0 <= p <= s.len(),
    ensures
        insert_at(s, p, c).remove(p) == s,
{
    assert(insert_at(s, p, c).remove(p) =~= s);
}

/// Any sequence of insertions grows the character count by exactly the
/// number of characters inserted (and `insert_char`'s contract moves the
/// cursor from `p` to `p` plus that number, one step per call).
pub proof fn lemma_insert_sequence_count(s: Seq<char>, p: int, cs: Seq<char>)
    requires
        0 <= p <= s.len(),
    ensures
        insert_all(s, p, cs).len() == s.len() + cs.len(),
    decreases cs.len(),
{
    if cs.len() > 0 {
        lemma_insert_sequence_count(insert_at(s, p, cs[0]), p + 1, cs.skip(1));
    }
}

/// Moving the cursor up one line and then down one line returns it to a
/// position on the line it started on, provided it did not start on the
/// first line (there the upward move is a no-op and the downward move
/// still descends).  When the line above is at least as long as the
/// starting column, the cursor returns to exactly where it started; the
/// column can only change when the intermediate line was shorter.
pub proof fn lemma_up_then_down_same_line(s: Seq<char>, p: int)
    requires
        0 <= p <= s.len(),
        start_of(s, p) > 0,
    ensures
        line_of(s, down_pos(s, up_pos(s, p))) == line_of(s, p),
        col_at(s, p) <= col_at(s, start_of(s, p) - 1) ==> down_pos(s, up_pos(s, p)) == p,
{
    let c = col_at(s, p);
    let q = start_of(s, p);
    lemma_col_props(s, p);
    let plen = col_at(s, q - 1);
    let pstart = q - 1 - plen;
    lemma_col_props(s, q - 1);
    lemma_line_len_eq(s, pstart, q - 1);
    let c2 = if c < plen {
        c
    } else {
        plen
    };
    let u = pstart + c2;
    lemma_col_from_start(s, pstart, c2);
    assert(u == up_pos(s, p));
    assert(col_at(s, u) == c2);
    assert(start_of(s, u) == pstart);
    assert(line_len_from(s, pstart) == plen);
    assert(pstart + plen == q - 1 < s.len());
    lemma_col_le_line_len(s, p);
    let next_len = line_len_from(s, q);
    assert(c <= next_len);
    assert(down_pos(s, u) == q + c2);
    lemma_line_of_within(s, q, c2);
    lemma_line_of_within(s, q, c);
}

} // verus!
