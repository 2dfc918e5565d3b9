//! The console of the Iris shell: the lines on screen, the cursor, and what
//! each key does to them. Drawing the lines and polling the keyboard stand
//! outside; running a request is handed back to the caller.
use vstd::prelude::*;
use crate::text::{
    views, byte_len, byte_len_upto, char_width, new_string, push_str, copy_str, str_eq, starts_with,
    ends_with, split_words, spec_words, split_str, spec_split, replace_str, spec_replace, string_of,
    opt_int, lemma_split_nonempty,
};

verus! {

/// The width of the window, in pixels.
pub const WINDOW_WIDTH: u32 = 1400;

/// The height of the window, in pixels.
pub const WINDOW_HEIGHT: u32 = 800;

/// A pair of coordinates.
pub struct Xy {
    pub x: u32,
    pub y: u32,
}

impl Xy {
    /// A pair.
    pub fn new(x: u32, y: u32) -> (r: Xy)
        ensures
            r.x == x,
            r.y == y,
    {
        Xy { x, y }
    }

    /// Sets both coordinates.
    pub fn change(&mut self, x: u32, y: u32)
        ensures
            final(self).x == x,
            final(self).y == y,
    {
        self.x = x;
        self.y = y;
    }
}

/// The character index where `b` bytes of the text lie before it, looking
/// from the `k`-th character on; none where `b` falls inside a character or
/// past the end.
pub open spec fn boundary_from(s: Seq<char>, b: int, k: int) -> Option<int>
    decreases s.len() - k,
{
    if k < 0 || k > s.len() {
        None
    } else if byte_len(s.take(k)) == b {
        Some(k)
    } else if byte_len(s.take(k)) > b || k == s.len() {
        None
    } else {
        boundary_from(s, b, k + 1)
    }
}

/// The character index at byte `b` of the text, where `b` is a character
/// boundary.
pub open spec fn boundary(s: Seq<char>, b: int) -> Option<int> {
    boundary_from(s, b, 0)
}

/// The number of bytes of a character in UTF-8.
pub fn width_of(c: char) -> (r: u64)
    ensures
        r == char_width(c),
{
    if (c as u32) < 0x80 {
        1
    } else if (c as u32) < 0x800 {
        2
    } else if (c as u32) < 0x10000 {
        3
    } else {
        4
    }
}

/// The character index at byte `b` of the text, if `b` is a character
/// boundary.
pub fn byte_boundary(s: &str, b: u32) -> (r: Option<usize>)
    ensures
        opt_int(r) == boundary(s@, b as int),
{
    let n = s.unicode_len();
    let mut k: usize = 0;
    let mut total: u64 = 0;
    while k < n
        invariant
            0 <= k <= n,
            n == s@.len(),
            total == byte_len(s@.take(k as int)),
            total <= b,
            boundary(s@, b as int) == boundary_from(s@, b as int, k as int),
        decreases n - k,
    {
        if total == b as u64 {
            return Some(k);
        }
        let c = s.get_char(k);
        let w = width_of(c);
        assert(s@.take(k + 1).drop_last() =~= s@.take(k as int));
        total = total + w;
        k += 1;
        if total > b as u64 {
            return None;
        }
    }
    if total == b as u64 {
        Some(k)
    } else {
        None
    }
}

/// The text with `t` put before its `k`-th character.
pub fn insert_at(s: &str, k: usize, t: &str) -> (r: String)
    requires
        k <= s@.len(),
    ensures
        r@ == s@.take(k as int) + t@ + s@.skip(k as int),
{
    let n = s.unicode_len();
    let a = s.substring_char(0, k);
    let b = s.substring_char(k, n);
    let mut r = new_string();
    push_str(&mut r, a);
    push_str(&mut r, t);
    push_str(&mut r, b);
    assert(s@.subrange(0, k as int) =~= s@.take(k as int));
    assert(s@.subrange(k as int, n as int) =~= s@.skip(k as int));
    r
}

/// The text without its `k`-th character.
pub fn remove_at(s: &str, k: usize) -> (r: String)
    requires
        k < s@.len(),
    ensures
        r@ == s@.take(k as int) + s@.skip(k + 1),
{
    let n = s.unicode_len();
    let a = s.substring_char(0, k);
    let b = s.substring_char(k + 1, n);
    let mut r = new_string();
    push_str(&mut r, a);
    push_str(&mut r, b);
    assert(s@.subrange(0, k as int) =~= s@.take(k as int));
    assert(s@.subrange(k + 1, n as int) =~= s@.skip(k + 1));
    r
}

/// What the console shows: its lines, and the cursor's column and line.
pub type Screen = (Seq<Seq<char>>, int, int);

/// The first screen of a console of `h` lines: a prompt, then blank lines.
pub open spec fn first_screen(h: nat) -> Seq<Seq<char>> {
    seq![">"@] + Seq::new((h - 1) as nat, |i: int| " "@)
}

/// Backspace: the character before the cursor goes, where the cursor is
/// past the prompt and the line holds more than the prompt.
pub open spec fn spec_delete(m: Screen) -> Screen {
    let (lines, x, y) = m;
    if x > 1 && byte_len(lines[y]) > 1 {
        let k = boundary(lines[y], x - 1)->0;
        (lines.update(y, lines[y].remove(k)), x - 1, y)
    } else {
        m
    }
}

/// Whether backspace can be done without a panic: the byte before the
/// cursor starts a character.
pub open spec fn delete_ok(m: Screen) -> bool {
    let (lines, x, y) = m;
    x > 1 && byte_len(lines[y]) > 1 ==> (boundary(lines[y], x - 1) matches Some(k) && k < lines[y].len())
}

/// Typing `text`: it goes in at the cursor's byte, and the cursor moves one
/// column.
pub open spec fn spec_new_entry(m: Screen, text: Seq<char>) -> Screen {
    let (lines, x, y) = m;
    let k = boundary(lines[y], x)->0;
    (lines.update(y, lines[y].take(k) + text + lines[y].skip(k)), x + 1, y)
}

/// Whether typing can be done without a panic: the cursor's byte starts a
/// character or ends the line.
pub open spec fn entry_ok(m: Screen) -> bool {
    let (lines, x, y) = m;
    boundary(lines[y], x) is Some && x < u32::MAX
}

/// The left arrow: one column back, not onto the prompt.
pub open spec fn spec_left(m: Screen) -> Screen {
    let (lines, x, y) = m;
    if x > 1 {
        (lines, x - 1, y)
    } else {
        m
    }
}

/// The right arrow: one column on, up to the byte length of the line.
pub open spec fn spec_right(m: Screen) -> Screen {
    let (lines, x, y) = m;
    if x < byte_len(lines[y]) {
        (lines, x + 1, y)
    } else {
        m
    }
}

/// A message on the next line (the last line is overwritten when the cursor
/// stands on it).
pub open spec fn spec_error(m: Screen, e: Seq<char>) -> Screen {
    let (lines, x, y) = m;
    let y1 = if y < lines.len() - 1 {
        y + 1
    } else {
        y
    };
    (lines.update(y1, e), x, y1)
}

/// The lines moved up by one, the last one staying where it was too.
pub open spec fn shift_once(lines: Seq<Seq<char>>) -> Seq<Seq<char>> {
    Seq::new(
        lines.len(),
        |i: int|
            if i < lines.len() - 1 {
                lines[i + 1]
            } else {
                lines[i]
            },
    )
}

/// The lines moved up `n` times.
pub open spec fn shift_up(lines: Seq<Seq<char>>, n: int) -> Seq<Seq<char>>
    decreases n,
{
    if n <= 0 {
        lines
    } else {
        shift_up(shift_once(lines), n - 1)
    }
}

/// A new prompt on the line after the cursor, the screen scrolling up when
/// the cursor was on the last line; an empty line above it becomes a blank.
pub open spec fn spec_replace_cursor(m: Screen) -> Screen {
    let (lines, x, y) = m;
    let y1 = y + 1;
    let l1 = if y1 >= lines.len() {
        shift_up(lines, y1 - lines.len() + 1)
    } else {
        lines
    };
    let y2 = if y1 >= lines.len() {
        lines.len() - 1
    } else {
        y1
    };
    let l2 = l1.update(y2, ">"@);
    let l3 = if l2[y2 - 1].len() == 0 {
        l2.update(y2 - 1, " "@)
    } else {
        l2
    };
    (l3, 1, y2)
}

/// `clear`: the lines up to the cursor's become blank, a prompt on the first.
pub open spec fn spec_clear(lines: Seq<Seq<char>>, y: int) -> Seq<Seq<char>> {
    Seq::new(
        lines.len(),
        |i: int|
            if i == 0 {
                ">"@
            } else if i <= y {
                " "@
            } else {
                lines[i]
            },
    )
}

/// The message for `\i` given other than one path.
pub open spec fn import_args_message() -> Seq<char> {
    "\\i take only a path to a .sql file in argument. Two arguments found here."@
}

/// What the return key asks of the caller.
pub enum Entry {
    /// The screen was cleared.
    Cleared,
    /// The requests of the file at the path are to be run.
    Import(String),
    /// Nothing more: a message was shown and the cursor replaced.
    Done,
    /// The request is to be run.
    Request(String),
}

/// What the return key asks, with the texts as characters.
pub enum EntryView {
    Cleared,
    Import(Seq<char>),
    Done,
    Request(Seq<char>),
}

/// The view of what the return key asks.
pub open spec fn entry_view(e: Entry) -> EntryView {
    match e {
        Entry::Cleared => EntryView::Cleared,
        Entry::Import(p) => EntryView::Import(p@),
        Entry::Done => EntryView::Done,
        Entry::Request(t) => EntryView::Request(t@),
    }
}

/// Whether the text starts with `\i`.
pub open spec fn is_import(text: Seq<char>) -> bool {
    "\\i"@.len() <= text.len() && text.subrange(0, "\\i"@.len() as int) == "\\i"@
}

/// The return key: the prompt leaves the line, whose text is then `clear`,
/// an import (`\i` and one path) or a request.
pub open spec fn spec_entry(m: Screen) -> (Screen, EntryView) {
    let (lines, x, y) = m;
    let text = lines[y].drop_first();
    let l1 = lines.update(y, text);
    if text == "clear"@ {
        ((spec_clear(l1, y), 1, 0), EntryView::Cleared)
    } else if is_import(text) {
        if spec_words(text).len() == 2 {
            ((l1, x, y), EntryView::Import(spec_words(text)[1]))
        } else {
            (spec_replace_cursor(spec_error((l1, x, y), import_args_message())), EntryView::Done)
        }
    } else {
        ((l1, x, y), EntryView::Request(text))
    }
}

/// The cells of a row, each between `pre` and `post`, one after the other.
pub open spec fn cells_text(cells: Seq<Seq<char>>, pre: Seq<char>, post: Seq<char>) -> Seq<char>
    decreases cells.len(),
{
    if cells.len() == 0 {
        seq![]
    } else {
        cells_text(cells.drop_last(), pre, post) + pre + cells.last() + post
    }
}

/// The `k`-th value of each column.
pub open spec fn row_of(columns: Seq<Seq<Seq<char>>>, k: int) -> Seq<Seq<char>> {
    columns.map_values(|c: Seq<Seq<char>>| c[k])
}

/// A result shown under the cursor: the names of the columns on the next
/// line, then one line per row; the cursor goes to the last of them.
pub open spec fn spec_show(m: Screen, keys: Seq<Seq<char>>, columns: Seq<Seq<Seq<char>>>) -> Screen {
    let (lines, x, y) = m;
    if keys.len() == 0 {
        m
    } else {
        let n = columns[0].len();
        let shown = Seq::new(
            lines.len(),
            |i: int|
                if i == y + 1 {
                    lines[i] + cells_text(keys, "| "@, " |"@)
                } else if y + 1 < i <= y + 1 + n {
                    lines[i] + cells_text(row_of(columns, i - y - 2), "|"@, "|"@)
                } else {
                    lines[i]
                },
        );
        (shown, x, y + n + 1)
    }
}

/// Whether a result can be shown without a panic: its lines fit under the
/// cursor and no column is shorter than the first.
pub open spec fn show_ok(m: Screen, keys: Seq<Seq<char>>, columns: Seq<Seq<Seq<char>>>) -> bool {
    let (lines, x, y) = m;
    &&& keys.len() == columns.len()
    &&& keys.len() > 0 ==> y + 1 + columns[0].len() < lines.len() && forall|j: int|
        0 <= j < columns.len() ==> #[trigger] columns[j].len() >= columns[0].len()
}

/// The keys the console reacts to.
pub enum Key {
    Ctrl,
    Backspace,
    V,
    Left,
    Right,
    Return,
    Escape,
    Other,
}

/// What a key asks of the caller.
pub enum Step {
    /// Nothing.
    Continue,
    /// Leave.
    Quit,
    /// What the return key asks.
    Enter(Entry),
}

/// The state of the console.
pub struct Console {
    pub cursor_pos: Xy,
    pub case_size: Xy,
    pub iter: u32,
    pub char_tab: Vec<String>,
    pub ctrle: bool,
}

impl Console {
    /// The lines and the cursor.
    pub open spec fn screen(&self) -> Screen {
        (views(self.char_tab@), self.cursor_pos.x as int, self.cursor_pos.y as int)
    }

    /// At least two lines, and the cursor on one of them.
    pub open spec fn wf(&self) -> bool {
        &&& 2 <= self.char_tab@.len() < u32::MAX
        &&& self.cursor_pos.y < self.char_tab@.len()
    }

    /// What stays when only the lines and the cursor change.
    pub open spec fn same_rest(&self, other: &Console) -> bool {
        &&& self.case_size == other.case_size
        &&& self.iter == other.iter
        &&& self.ctrle == other.ctrle
        &&& self.char_tab@.len() == other.char_tab@.len()
    }

    /// A console of the height of the window: a prompt on the first line,
    /// the cursor after it.
    pub fn new() -> (r: Console)
        ensures
            r.wf(),
            r.screen() == (first_screen(20), 1int, 0int),
            r.case_size.x == 15 && r.case_size.y == 40,
            r.iter == 0,
            !r.ctrle,
    {
        let size_window = Xy::new(WINDOW_WIDTH, WINDOW_HEIGHT);
        let case_size = Xy::new(15, 40);
        let height = size_window.y / case_size.y;
        let mut char_vec: Vec<String> = Vec::new();
        let prompt = copy_str(">");
        char_vec.push(prompt);
        proof {
            lemma_views_push(Seq::<String>::empty(), prompt);
            assert(views(Seq::<String>::empty()) =~= Seq::<Seq<char>>::empty());
            assert(seq![">"@] + Seq::new(0 as nat, |j: int| " "@) =~= seq![">"@]);
        }
        let mut i: u32 = 1;
        while i < height
            invariant
                1 <= i <= height,
                height == 20,
                views(char_vec@) == seq![">"@] + Seq::new((i - 1) as nat, |j: int| " "@),
            decreases height - i,
        {
            let ghost before = char_vec@;
            let sp = copy_str(" ");
            char_vec.push(sp);
            proof {
                lemma_views_push(before, sp);
            }
            assert(views(char_vec@) =~= seq![">"@] + Seq::new(i as nat, |j: int| " "@));
            i += 1;
        }
        Console { cursor_pos: Xy::new(1, 0), case_size, iter: 0, char_tab: char_vec, ctrle: false }
    }

    /// Whether the cursor is drawn at this frame.
    pub fn cursor_visible(&self) -> (r: bool)
        ensures
            r == !(self.iter % 60 <= 10),
    {
        !(self.iter % 60 <= 10)
    }

    /// One more frame.
    pub fn tick(&mut self)
        requires
            old(self).iter < u32::MAX,
        ensures
            final(self).iter == old(self).iter + 1,
            final(self).screen() == old(self).screen(),
            final(self).ctrle == old(self).ctrle,
            final(self).case_size == old(self).case_size,
            final(self).char_tab@.len() == old(self).char_tab@.len(),
    {
        self.iter += 1;
    }

    /// Whether backspace can be done without a panic.
    pub fn can_delete(&self) -> (r: bool)
        requires
            self.wf(),
        ensures
            r == delete_ok(self.screen()),
    {
        let y = self.cursor_pos.y as usize;
        let x = self.cursor_pos.x;
        let line = self.char_tab[y].as_str();
        if x > 1 && byte_len_upto(line, 1) > 1 {
            match byte_boundary(line, x - 1) {
                Some(k) => k < line.unicode_len(),
                None => false,
            }
        } else {
            true
        }
    }

    /// Backspace.
    pub fn delete_char(&mut self)
        requires
            old(self).wf(),
            delete_ok(old(self).screen()),
        ensures
            final(self).wf(),
            final(self).screen() == spec_delete(old(self).screen()),
            final(self).same_rest(old(self)),
    {
        let y = self.cursor_pos.y as usize;
        let x = self.cursor_pos.x;
        let ghost lines = views(self.char_tab@);
        if x > 1 && byte_len_upto(self.char_tab[y].as_str(), 1) > 1 {
            self.cursor_pos.x = x - 1;
            let kk = byte_boundary(self.char_tab[y].as_str(), x - 1);
            match kk {
                Some(k) => {
                    let line = remove_at(self.char_tab[y].as_str(), k);
                    let ghost v0 = self.char_tab@;
                    self.char_tab.set(y, line);
                    proof {
                        lemma_views_update(v0, y as int, line);
                    }
                    assert(views(self.char_tab@) =~= lines.update(y as int, lines[y as int].remove(k as int)));
                },
                None => {},
            }
        }
    }

    /// Whether typing can be done without a panic.
    pub fn can_enter(&self) -> (r: bool)
        requires
            self.wf(),
        ensures
            r == entry_ok(self.screen()),
    {
        let y = self.cursor_pos.y as usize;
        self.cursor_pos.x < u32::MAX && byte_boundary(self.char_tab[y].as_str(), self.cursor_pos.x).is_some()
    }

    /// Typing `text` at the cursor.
    pub fn new_entry(&mut self, text: &str)
        requires
            old(self).wf(),
            entry_ok(old(self).screen()),
        ensures
            final(self).wf(),
            final(self).screen() == spec_new_entry(old(self).screen(), text@),
            final(self).same_rest(old(self)),
    {
        let y = self.cursor_pos.y as usize;
        let ghost lines = views(self.char_tab@);
        let kk = byte_boundary(self.char_tab[y].as_str(), self.cursor_pos.x);
        proof {
            lemma_boundary_range(lines[y as int], self.cursor_pos.x as int, 0);
        }
        match kk {
            Some(k) => {
                let line = insert_at(self.char_tab[y].as_str(), k, text);
                let ghost v0 = self.char_tab@;
                self.char_tab.set(y, line);
                proof {
                    lemma_views_update(v0, y as int, line);
                }
                assert(views(self.char_tab@) =~= lines.update(
                    y as int,
                    lines[y as int].take(k as int) + text@ + lines[y as int].skip(k as int),
                ));
            },
            None => {},
        }
        self.cursor_pos.x = self.cursor_pos.x + 1;
    }

    /// The left arrow.
    pub fn left(&mut self)
        requires
            old(self).wf(),
        ensures
            final(self).wf(),
            final(self).screen() == spec_left(old(self).screen()),
            final(self).same_rest(old(self)),
    {
        if self.cursor_pos.x > 1 {
            self.cursor_pos.x = self.cursor_pos.x - 1;
        }
    }

    /// The right arrow.
    pub fn right(&mut self)
        requires
            old(self).wf(),
            byte_len(old(self).screen().0[old(self).cursor_pos.y as int]) < u32::MAX,
        ensures
            final(self).wf(),
            final(self).screen() == spec_right(old(self).screen()),
            final(self).same_rest(old(self)),
    {
        let y = self.cursor_pos.y as usize;
        let len = byte_len_upto(self.char_tab[y].as_str(), (u32::MAX - 1) as usize);
        if (self.cursor_pos.x as usize) < len {
            self.cursor_pos.x = self.cursor_pos.x + 1;
        }
    }

    /// A message on the next line.
    pub fn error_message(&mut self, e: &str)
        requires
            old(self).wf(),
        ensures
            final(self).wf(),
            final(self).screen() == spec_error(old(self).screen(), e@),
            final(self).same_rest(old(self)),
    {
        let ghost lines = views(self.char_tab@);
        if (self.cursor_pos.y as usize) < self.char_tab.len() - 1 {
            self.cursor_pos.y = self.cursor_pos.y + 1;
        }
        let y = self.cursor_pos.y as usize;
        let msg = copy_str(e);
        let ghost v0 = self.char_tab@;
        self.char_tab.set(y, msg);
        proof {
            lemma_views_update(v0, y as int, msg);
        }
    }

    /// The lines moved up by one.
    fn shift_lines(&mut self)
        requires
            old(self).wf(),
        ensures
            final(self).wf(),
            views(final(self).char_tab@) == shift_once(views(old(self).char_tab@)),
            final(self).cursor_pos == old(self).cursor_pos,
            final(self).same_rest(old(self)),
    {
        let ghost lines = views(self.char_tab@);
        let n = self.char_tab.len();
        let mut i: usize = 0;
        while i < n - 1
            invariant
                0 <= i <= n - 1,
                n == self.char_tab@.len(),
                n == lines.len(),
                2 <= n < u32::MAX,
                self.cursor_pos == old(self).cursor_pos,
                self.same_rest(old(self)),
                forall|j: int| 0 <= j < i ==> #[trigger] views(self.char_tab@)[j] == lines[j + 1],
                forall|j: int| i <= j < n ==> #[trigger] views(self.char_tab@)[j] == lines[j],
            decreases n - 1 - i,
        {
            assert(views(self.char_tab@)[i + 1] == lines[i + 1]);
            let next = copy_str(self.char_tab[i + 1].as_str());
            assert(next@ == lines[i + 1]);
            let ghost v0 = self.char_tab@;
            self.char_tab.set(i, next);
            proof {
                lemma_views_update(v0, i as int, next);
            }
            i += 1;
        }
        assert(views(self.char_tab@) =~= shift_once(lines));
    }

    /// A new prompt on the line after the cursor.
    pub fn replace_cursor(&mut self)
        requires
            old(self).wf(),
        ensures
            final(self).wf(),
            final(self).screen() == spec_replace_cursor(old(self).screen()),
            final(self).same_rest(old(self)),
    {
        let ghost m0 = self.screen();
        let y0 = self.cursor_pos.y;
        self.cursor_pos.change(1, y0 + 1);
        let n = self.char_tab.len();
        if (self.cursor_pos.y as usize) >= n {
            let nb_line_to_delete = self.cursor_pos.y - (n as u32) + 1;
            self.cursor_pos.y = (n - 1) as u32;
            let mut c: u32 = 0;
            while c < nb_line_to_delete
                invariant
                    c <= nb_line_to_delete,
                    n == self.char_tab@.len(),
                    self.wf(),
                    self.same_rest(old(self)),
                    views(self.char_tab@) == shift_up(m0.0, c as int),
                    self.cursor_pos.y == n - 1,
                    self.cursor_pos.x == 1,
                decreases nb_line_to_delete - c,
            {
                self.shift_lines();
                proof {
                    lemma_shift_up_step(m0.0, c as int);
                }
                c += 1;
            }
            self.cursor_pos.y = (n - 1) as u32;
        }
        let y = self.cursor_pos.y as usize;
        let ghost l1 = views(self.char_tab@);
        let prompt = copy_str(">");
        let ghost v1 = self.char_tab@;
        self.char_tab.set(y, prompt);
        proof {
            lemma_views_update(v1, y as int, prompt);
        }
        let ghost l2 = views(self.char_tab@);
        if self.char_tab[y - 1].as_str().unicode_len() == 0 {
            let blank = copy_str(" ");
            let ghost v2 = self.char_tab@;
            self.char_tab.set(y - 1, blank);
            proof {
                lemma_views_update(v2, y - 1, blank);
            }
        }
    }

    /// `clear`: the lines up to the cursor's become blank.
    fn clear_lines(&mut self)
        requires
            old(self).wf(),
        ensures
            final(self).wf(),
            final(self).screen() == (spec_clear(views(old(self).char_tab@), old(self).cursor_pos.y as int), 1int, 0int),
            final(self).same_rest(old(self)),
    {
        let ghost lines = views(self.char_tab@);
        let y = self.cursor_pos.y;
        let mut i: u32 = 0;
        while i < y + 1
            invariant
                0 <= i <= y + 1,
                y == old(self).cursor_pos.y,
                self.wf(),
                lines.len() == self.char_tab@.len(),
                self.cursor_pos == old(self).cursor_pos,
                self.same_rest(old(self)),
                forall|j: int| 0 <= j < i ==> #[trigger] views(self.char_tab@)[j] == " "@,
                forall|j: int| i <= j < lines.len() ==> #[trigger] views(self.char_tab@)[j] == lines[j],
            decreases y + 1 - i,
        {
            let blank = copy_str(" ");
            let ghost v0 = self.char_tab@;
            self.char_tab.set(i as usize, blank);
            proof {
                lemma_views_update(v0, i as int, blank);
            }
            i += 1;
        }
        let prompt = copy_str(">");
        let ghost v1 = self.char_tab@;
        self.char_tab.set(0, prompt);
        proof {
            lemma_views_update(v1, 0, prompt);
        }
        self.cursor_pos.change(1, 0);
        assert(views(self.char_tab@) =~= spec_clear(lines, y as int));
    }

    /// The return key: the prompt leaves the line, whose text is cleared
    /// away, given back to be imported or run, or answered at once.
    pub fn entry_key(&mut self) -> (r: Entry)
        requires
            old(self).wf(),
            old(self).screen().0[old(self).cursor_pos.y as int].len() > 0,
        ensures
            final(self).wf(),
            (final(self).screen(), entry_view(r)) == spec_entry(old(self).screen()),
            final(self).same_rest(old(self)),
    {
        let ghost m0 = self.screen();
        let y = self.cursor_pos.y as usize;
        let text = remove_at(self.char_tab[y].as_str(), 0);
        let ghost lines = views(self.char_tab@);
        let kept = copy_str(text.as_str());
        let ghost v0 = self.char_tab@;
        self.char_tab.set(y, kept);
        proof {
            lemma_views_update(v0, y as int, kept);
        }
        assert(text@ =~= lines[y as int].drop_first());
        if str_eq(text.as_str(), "clear") {
            self.clear_lines();
            Entry::Cleared
        } else if starts_with(text.as_str(), "\\i") {
            let split = split_words(text.as_str());
            proof {
                assert(split@.map_values(|p: Vec<char>| p@).len() == split@.len());
            }
            if split.len() == 2 {
                let path = string_of(&split[1]);
                proof {
                    assert(split@.map_values(|p: Vec<char>| p@)[1] == split@[1]@);
                }
                Entry::Import(path)
            } else {
                self.error_message("\\i take only a path to a .sql file in argument. Two arguments found here.");
                self.replace_cursor();
                Entry::Done
            }
        } else {
            Entry::Request(text)
        }
    }

    /// Checks the path of an import: where it names no file, or a file that
    /// is neither `.sql` nor `.txt`, a message is shown; whether the file is
    /// to be read.
    pub fn import_checked(&mut self, path: &str, exists: bool) -> (r: bool)
        requires
            old(self).wf(),
        ensures
            final(self).wf(),
            final(self).same_rest(old(self)),
            r == (exists && (ends_with_text(path@, ".sql"@) || ends_with_text(path@, ".txt"@))),
            final(self).screen() == (if !exists {
                spec_error(old(self).screen(), "The path "@ + path@ + " is not valid."@)
            } else if r {
                old(self).screen()
            } else {
                spec_error(old(self).screen(), "The file in arguments of \\i have to be a sql file."@)
            }),
    {
        if exists {
            if ends_with(path, ".sql") || ends_with(path, ".txt") {
                true
            } else {
                self.error_message("The file in arguments of \\i have to be a sql file.");
                false
            }
        } else {
            let mut msg = copy_str("The path ");
            push_str(&mut msg, path);
            push_str(&mut msg, " is not valid.");
            self.error_message(msg.as_str());
            false
        }
    }

    /// A result under the cursor: the names of the columns, then the rows.
    pub fn show_result(&mut self, keys: &Vec<String>, columns: &Vec<Vec<String>>)
        requires
            old(self).wf(),
            show_ok(old(self).screen(), views(keys@), columns_view(columns@)),
        ensures
            final(self).wf(),
            final(self).screen() == spec_show(old(self).screen(), views(keys@), columns_view(columns@)),
            final(self).same_rest(old(self)),
    {
        let ghost m0 = self.screen();
        let ghost lines = m0.0;
        let ghost ks = views(keys@);
        let ghost cs = columns_view(columns@);
        if keys.len() > 0 {
            let y0 = self.cursor_pos.y as usize;
            let n0 = columns[0].len();
            let mut i: usize = y0 + 1;
            self.cursor_pos.y = self.cursor_pos.y + (n0 + 1) as u32;
            let mut header = copy_str(self.char_tab[i].as_str());
            let mut j: usize = 0;
            while j < keys.len()
                invariant
                    j <= keys@.len(),
                    ks == views(keys@),
                    header@ == lines[i as int] + cells_text(ks.take(j as int), "| "@, " |"@),
                decreases keys@.len() - j,
            {
                push_str(&mut header, "| ");
                push_str(&mut header, keys[j].as_str());
                push_str(&mut header, " |");
                proof {
                    assert(ks.take(j + 1).drop_last() =~= ks.take(j as int));
                }
                j += 1;
            }
            proof {
                assert(ks.take(j as int) =~= ks);
            }
            let ghost vh = self.char_tab@;
            self.char_tab.set(i, header);
            proof {
                lemma_views_update(vh, i as int, header);
            }
            let mut k: usize = 0;
            while k < n0
                invariant
                    k <= n0,
                    n0 == cs[0].len(),
                    i == y0 + 1 + k,
                    y0 == m0.2,
                    y0 + 1 + n0 < lines.len(),
                    self.char_tab@.len() == lines.len(),
                    keys@.len() == columns@.len(),
                    cs == columns_view(columns@),
                    ks == views(keys@),
                    forall|c: int| 0 <= c < columns@.len() ==> #[trigger] cs[c].len() >= n0,
                    forall|q: int|
                        0 <= q < lines.len() ==> #[trigger] views(self.char_tab@)[q] == (if q == y0 + 1 {
                            lines[q] + cells_text(ks, "| "@, " |"@)
                        } else if y0 + 1 < q <= y0 + 1 + k {
                            lines[q] + cells_text(row_of(cs, q - y0 - 2), "|"@, "|"@)
                        } else {
                            lines[q]
                        }),
                    self.cursor_pos.y == m0.2 + n0 + 1,
                    self.cursor_pos.x == m0.1,
                    self.same_rest(old(self)),
                decreases n0 - k,
            {
                i += 1;
                assert(views(self.char_tab@)[i as int] == lines[i as int]);
                let mut row = copy_str(self.char_tab[i].as_str());
                proof {
                    assert(row_of(cs, k as int).take(0) =~= Seq::<Seq<char>>::empty());
                    assert(lines[i as int] + cells_text(Seq::<Seq<char>>::empty(), "|"@, "|"@) =~= lines[i as int]);
                }
                let mut c: usize = 0;
                while c < columns.len()
                    invariant
                        c <= columns@.len(),
                        k < n0,
                        cs == columns_view(columns@),
                        forall|c2: int| 0 <= c2 < columns@.len() ==> #[trigger] cs[c2].len() >= n0,
                        row@ == lines[i as int] + cells_text(row_of(cs, k as int).take(c as int), "|"@, "|"@),
                        self.char_tab@.len() == lines.len(),
                        i == y0 + 2 + k,
                        i < lines.len(),
                        forall|q: int| 0 <= q < lines.len() && q != i ==> #[trigger] views(self.char_tab@)[q] == (if q == y0 + 1 {
                            lines[q] + cells_text(ks, "| "@, " |"@)
                        } else if y0 + 1 < q <= y0 + 1 + k {
                            lines[q] + cells_text(row_of(cs, q - y0 - 2), "|"@, "|"@)
                        } else {
                            lines[q]
                        }),
                    decreases columns@.len() - c,
                {
                    proof {
                        assert(cs[c as int] == views(columns@[c as int]@));
                        assert(cs[c as int].len() >= n0);
                    }
                    push_str(&mut row, "|");
                    push_str(&mut row, columns[c][k].as_str());
                    push_str(&mut row, "|");
                    proof {
                        assert(row_of(cs, k as int).take(c + 1).drop_last() =~= row_of(cs, k as int).take(c as int));
                        assert(row_of(cs, k as int)[c as int] == cs[c as int][k as int]);
                    }
                    c += 1;
                }
                proof {
                    assert(row_of(cs, k as int).take(c as int) =~= row_of(cs, k as int));
                }
                let ghost vr = self.char_tab@;
                self.char_tab.set(i, row);
                proof {
                    lemma_views_update(vr, i as int, row);
                }
                k += 1;
            }
            proof {
                assert(views(self.char_tab@) =~= spec_show(m0, ks, cs).0);
            }
        }
    }

    /// A key pressed.
    pub fn key_down(&mut self, key: Key) -> (r: Step)
        requires
            old(self).wf(),
            key_down_ok(old(self).screen(), key),
        ensures
            final(self).wf(),
            final(self).case_size == old(self).case_size,
            final(self).iter == old(self).iter,
            final(self).char_tab@.len() == old(self).char_tab@.len(),
            match key {
                Key::Ctrl => r is Continue && final(self).ctrle && final(self).screen() == old(self).screen(),
                Key::Backspace => r is Continue && final(self).ctrle == old(self).ctrle && final(self).screen()
                    == spec_delete(old(self).screen()),
                Key::Left => r is Continue && final(self).ctrle == old(self).ctrle && final(self).screen()
                    == spec_left(old(self).screen()),
                Key::Right => r is Continue && final(self).ctrle == old(self).ctrle && final(self).screen()
                    == spec_right(old(self).screen()),
                Key::Return => r matches Step::Enter(e) && final(self).ctrle == old(self).ctrle && (
                final(self).screen(), entry_view(e)) == spec_entry(old(self).screen()),
                Key::Escape => r is Quit && final(self).ctrle == old(self).ctrle && final(self).screen()
                    == old(self).screen(),
                _ => r is Continue && final(self).ctrle == old(self).ctrle && final(self).screen()
                    == old(self).screen(),
            },
    {
        match key {
            Key::Ctrl => {
                self.ctrle = true;
                Step::Continue
            },
            Key::Backspace => {
                self.delete_char();
                Step::Continue
            },
            Key::V => {
                if self.ctrle {
                }
                Step::Continue
            },
            Key::Left => {
                self.left();
                Step::Continue
            },
            Key::Right => {
                self.right();
                Step::Continue
            },
            Key::Return => Step::Enter(self.entry_key()),
            Key::Escape => Step::Quit,
            Key::Other => Step::Continue,
        }
    }

    /// A key released.
    pub fn key_up(&mut self, key: Key)
        ensures
            final(self).screen() == old(self).screen(),
            final(self).char_tab@.len() == old(self).char_tab@.len(),
            final(self).case_size == old(self).case_size,
            final(self).iter == old(self).iter,
            final(self).ctrle == (match key {
                Key::Ctrl => false,
                _ => old(self).ctrle,
            }),
    {
        match key {
            Key::Ctrl => self.ctrle = false,
            _ => {},
        }
    }

    /// Whether a key can be handled without a panic.
    pub fn can_press(&self, key: Key) -> (r: bool)
        requires
            self.wf(),
        ensures
            r == key_down_ok(self.screen(), key),
    {
        match key {
            Key::Backspace => self.can_delete(),
            Key::Right => {
                let y = self.cursor_pos.y as usize;
                byte_len_upto(self.char_tab[y].as_str(), (u32::MAX - 1) as usize) <= (u32::MAX - 1) as usize
            },
            Key::Return => {
                let y = self.cursor_pos.y as usize;
                self.char_tab[y].as_str().unicode_len() > 0
            },
            _ => true,
        }
    }
}

/// Whether a key can be handled without a panic.
pub open spec fn key_down_ok(m: Screen, key: Key) -> bool {
    let (lines, x, y) = m;
    match key {
        Key::Backspace => delete_ok(m),
        Key::Right => byte_len(lines[y]) < u32::MAX,
        Key::Return => lines[y].len() > 0,
        _ => true,
    }
}

/// The columns of a result, as characters.
pub open spec fn columns_view(c: Seq<Vec<String>>) -> Seq<Seq<Seq<char>>> {
    c.map_values(|col: Vec<String>| views(col@))
}

/// Whether the text ends with `p`.
pub open spec fn ends_with_text(s: Seq<char>, p: Seq<char>) -> bool {
    p.len() <= s.len() && s.subrange(s.len() - p.len(), s.len() as int) == p
}

/// The requests of a file: its text without line feeds, cut at each `;`,
/// what follows the last `;` left out.
pub open spec fn spec_requests_of(text: Seq<char>) -> Seq<Seq<char>> {
    spec_split(spec_replace(text, "\n"@, ""@), ";"@).drop_last()
}

/// The requests of a file.
pub fn requests_of_file(text: &str) -> (r: Vec<String>)
    ensures
        views(r@) == spec_requests_of(text@),
{
    proof {
        reveal_strlit("\n");
        reveal_strlit(";");
    }
    let f_text = replace_str(text, "\n", "");
    let mut all_request = split_str(f_text.as_str(), ";");
    proof {
        lemma_split_nonempty(f_text@, ";"@);
    }
    let ghost before = views(all_request@);
    all_request.pop();
    assert(views(all_request@) =~= before.drop_last());
    all_request
}

/// Moving up `c + 1` times is moving up `c` times, then once.
pub proof fn lemma_shift_up_step(lines: Seq<Seq<char>>, c: int)
    requires
        0 <= c,
    ensures
        shift_up(lines, c + 1) == shift_once(shift_up(lines, c)),
    decreases c,
{
    assert(shift_up(lines, c + 1) == shift_up(shift_once(lines), c));
    if c > 0 {
        lemma_shift_up_step(shift_once(lines), c - 1);
        assert(shift_up(lines, c) == shift_up(shift_once(lines), c - 1));
    } else {
        assert(shift_up(shift_once(lines), 0) == shift_once(lines));
        assert(shift_up(lines, 0) == lines);
    }
}

/// Replacing one string replaces its view.
pub proof fn lemma_views_update(v: Seq<String>, i: int, t: String)
    requires
        0 <= i < v.len(),
    ensures
        views(v.update(i, t)) == views(v).update(i, t@),
{
    assert(views(v.update(i, t)) =~= views(v).update(i, t@));
}

/// Pushing a string pushes its view.
pub proof fn lemma_views_push(v: Seq<String>, t: String)
    ensures
        views(v.push(t)) == views(v).push(t@),
{
    assert(views(v.push(t)) =~= views(v).push(t@));
}

/// A character boundary found lies between where the search started and
/// the end of the text.
pub proof fn lemma_boundary_range(s: Seq<char>, b: int, k: int)
    ensures
        boundary_from(s, b, k) matches Some(r) ==> k <= r <= s.len(),
    decreases s.len() - k,
{
    if 0 <= k < s.len() && byte_len(s.take(k)) < b {
        lemma_boundary_range(s, b, k + 1);
    }
}

/// The bytes of two texts put together are the bytes of each.
pub proof fn lemma_byte_len_concat(a: Seq<char>, b: Seq<char>)
    ensures
        byte_len(a + b) == byte_len(a) + byte_len(b),
    decreases b.len(),
{
    if b.len() > 0 {
        lemma_byte_len_concat(a, b.drop_last());
        assert((a + b).drop_last() =~= a + b.drop_last());
        assert((a + b).last() == b.last());
    } else {
        assert(a + b =~= a);
    }
}

/// A character boundary depends only on the text before it.
pub proof fn lemma_boundary_prefix(s: Seq<char>, s2: Seq<char>, b: int, j: int, k: int)
    requires
        0 <= j <= k,
        boundary_from(s, b, j) == Some(k),
        k <= s2.len(),
        s2.take(k) == s.take(k),
    ensures
        boundary_from(s2, b, j) == Some(k),
    decreases k - j,
{
    lemma_boundary_range(s, b, j + 1);
    if j == k {
        assert(byte_len(s.take(k)) == b);
    } else {
        assert(s2.take(j) =~= s2.take(k).take(j));
        assert(s.take(j) =~= s.take(k).take(j));
        assert(byte_len(s.take(j)) != b);
        lemma_boundary_prefix(s, s2, b, j + 1, k);
    }
}

/// Typing a character, then backspace, gives back the screen as it was
/// (the cursor past the prompt, on a line that is not empty).
pub proof fn lemma_backspace_undoes_typing(m: Screen, c: char)
    requires
        0 <= m.2 < m.0.len(),
        boundary(m.0[m.2], m.1) is Some,
        m.1 >= 1,
        byte_len(m.0[m.2]) >= 1,
    ensures
        delete_ok(spec_new_entry(m, seq![c])),
        spec_delete(spec_new_entry(m, seq![c])) == m,
{
    let (lines, x, y) = m;
    let line = lines[y];
    let k = boundary(line, x)->0;
    lemma_boundary_range(line, x, 0);
    let line2 = line.take(k) + seq![c] + line.skip(k);
    let m2 = spec_new_entry(m, seq![c]);
    assert(m2 == (lines.update(y, line2), x + 1, y));
    assert(line2.take(k) =~= line.take(k));
    lemma_boundary_prefix(line, line2, x, 0, k);
    lemma_byte_len_concat(line.take(k) + seq![c], line.skip(k));
    lemma_byte_len_concat(line.take(k), seq![c]);
    lemma_byte_len_concat(line.take(k), line.skip(k));
    assert(line.take(k) + line.skip(k) =~= line);
    assert(byte_len(seq![c]) == char_width(c)) by {
        assert(seq![c].drop_last() =~= Seq::<char>::empty());
        assert(seq![c].last() == c);
        assert(byte_len(Seq::<char>::empty()) == 0);
        assert(byte_len(seq![c]) == byte_len(seq![c].drop_last()) + char_width(seq![c].last()));
    }
    assert(m2.0[y] == line2);
    assert(byte_len(line2) > 1);
    assert(line2.remove(k) =~= line);
    assert(lines.update(y, line2).update(y, line) =~= lines);
}

} // verus!
