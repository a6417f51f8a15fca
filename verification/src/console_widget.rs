//! The grid: what one cell shows, how wide the cells are, and the text of the
//! whole shelf.

use vstd::prelude::*;
use vstd::string::*;
use crate::colors::{lemma_keys_bounded, palette, seen_after, ColorMap, PALETTE_SIZE};
use crate::err::SError;
pub use crate::layout::SlotPrintOrder;
use crate::layout::{lemma_cell_bounds, lemma_position, valid_layout};
use crate::text::{
    byte_len, byte_length, centered, padded_end, padded_start, push_centered, push_padded_end,
    push_padded_start, push_repeated, repeated,
};

verus! {

/// The glyph that is shown beside a bay whose indicator light is on.
pub const ALERT_LOCATING: &'static str = "🚨";

/// The columns of a cell before its label.
pub const PADDING_PREFIX: usize = 4;

/// The columns of a cell behind its label.
pub const PADDING_SUFFIX: usize = 2;

/// The heading of one cell.
#[derive(Debug, Clone, PartialEq)]
pub struct SlotLabel {
    /// The left part of the heading: the group of the bay.
    pub content_start: String,
    /// The right part of the heading: the device in the bay.
    pub content_end: String,
    /// What stands before the heading, such as the number of the bay.
    pub prefix: Option<String>,
    /// A short glyph behind the heading.
    pub suffix: Option<&'static str>,
}

/// One line of detail below the heading of a cell.
#[derive(Debug, Clone, PartialEq)]
pub struct SlotLine {
    pub line: String,
}

/// What one bay shows.
#[derive(Debug, Clone, PartialEq)]
pub enum SlotState {
    /// A bay with a device: the group by which it is coloured, its heading
    /// and its lines of detail.
    Device(String, SlotLabel, Vec<SlotLine>),
    /// A bay without a device.
    Empty(SlotLabel, Vec<SlotLine>),
}

impl SlotState {
    /// The heading of the cell.
    pub open spec fn spec_label(&self) -> SlotLabel {
        match self {
            Self::Device(_, label, _) => *label,
            Self::Empty(label, _) => *label,
        }
    }

    /// The lines of detail of the cell.
    pub open spec fn spec_lines(&self) -> Seq<SlotLine> {
        match self {
            Self::Device(_, _, lines) => lines@,
            Self::Empty(_, lines) => lines@,
        }
    }

    /// The group of the bay, if it holds a device.
    pub open spec fn group(&self) -> Option<Seq<char>> {
        match self {
            Self::Device(key, _, _) => Some(key@),
            Self::Empty(_, _) => None,
        }
    }

    /// The heading of the cell.
    pub fn label(&self) -> (r: &SlotLabel)
        ensures
            *r == self.spec_label(),
    {
        match self {
            Self::Device(_, label, _) => label,
            Self::Empty(label, _) => label,
        }
    }

    /// The heading of the cell, to be changed in place.
    pub fn label_mut(&mut self) -> (r: &mut SlotLabel)
        ensures
            *r == old(self).spec_label(),
            final(self).spec_label() == *final(r),
            final(self).spec_lines() == old(self).spec_lines(),
            final(self).group() == old(self).group(),
    {
        match self {
            Self::Device(_, label, _) => label,
            Self::Empty(label, _) => label,
        }
    }

    /// The lines of detail of the cell.
    pub fn lines(&self) -> (r: &Vec<SlotLine>)
        ensures
            r@ == self.spec_lines(),
    {
        match self {
            Self::Device(_, _, lines) => lines,
            Self::Empty(_, lines) => lines,
        }
    }

    /// The lines of detail of the cell, to be changed in place.
    pub fn lines_mut(&mut self) -> (r: &mut Vec<SlotLine>)
        ensures
            r@ == old(self).spec_lines(),
            final(self).spec_lines() == final(r)@,
            final(self).spec_label() == old(self).spec_label(),
            final(self).group() == old(self).group(),
    {
        match self {
            Self::Device(_, _, lines) => lines,
            Self::Empty(_, lines) => lines,
        }
    }
}

/// What a heading says.
pub struct LabelModel {
    pub content_start: Seq<char>,
    pub content_end: Seq<char>,
    pub prefix: Option<Seq<char>>,
    pub suffix: Option<Seq<char>>,
}

/// What a bay shows: its group if it holds a device, its heading and its
/// lines of detail.
pub struct StateModel {
    pub group: Option<Seq<char>>,
    pub label: LabelModel,
    pub lines: Seq<Seq<char>>,
}

impl View for SlotLabel {
    type V = LabelModel;

    open spec fn view(&self) -> LabelModel {
        LabelModel {
            content_start: self.content_start@,
            content_end: self.content_end@,
            prefix: match self.prefix {
                Some(f) => Some(f@),
                None => None,
            },
            suffix: match self.suffix {
                Some(f) => Some(f@),
                None => None,
            },
        }
    }
}

impl View for SlotLine {
    type V = Seq<char>;

    open spec fn view(&self) -> Seq<char> {
        self.line@
    }
}

/// What a `Vec` of lines holds.
pub open spec fn line_texts(lines: Seq<SlotLine>) -> Seq<Seq<char>> {
    Seq::new(lines.len(), |k: int| lines[k]@)
}

impl View for SlotState {
    type V = StateModel;

    open spec fn view(&self) -> StateModel {
        StateModel {
            group: self.group(),
            label: self.spec_label()@,
            lines: line_texts(self.spec_lines()),
        }
    }
}

/// What a slice of bays shows.
pub open spec fn models(states: Seq<SlotState>) -> Seq<StateModel> {
    Seq::new(states.len(), |i: int| states[i]@)
}

/// A letter or digit of ASCII.
pub open spec fn is_ascii_alphanumeric(c: char) -> bool {
    ('0' <= c && c <= '9') || ('a' <= c && c <= 'z') || ('A' <= c && c <= 'Z')
}

/// A flag in its column: right-aligned to `padding` characters, unless it
/// begins with a glyph, which fills the column as it is.
pub open spec fn flag_text(flag: Seq<char>, padding: int) -> Seq<char> {
    if flag.len() > 0 && !is_ascii_alphanumeric(flag[0]) {
        flag
    } else {
        padded_start(flag, padding)
    }
}

/// The column before a heading: the flag, or a dash where there is none.
pub open spec fn prefix_text(flag: Option<Seq<char>>, padding: int) -> Seq<char> {
    match flag {
        Some(f) => flag_text(f, padding),
        None => padded_start(seq!['-'], padding),
    }
}

/// The column behind a heading: the flag, or blanks where there is none.
pub open spec fn suffix_text(flag: Option<Seq<char>>, padding: int) -> Seq<char> {
    match flag {
        Some(f) => flag_text(f, padding),
        None => repeated(' ', padding),
    }
}

fn push_flag(out: &mut String, flag: &str, padding: usize)
    ensures
        final(out)@ == old(out)@ + flag_text(flag@, padding as int),
{
    if flag.unicode_len() > 0 {
        let first: char = flag.get_char(0);
        let alphanumeric: bool = (first >= '0' && first <= '9') || (first >= 'a' && first <= 'z')
            || (first >= 'A' && first <= 'Z');
        if !alphanumeric {
            out.append(flag);
            return ;
        }
    }
    push_padded_start(out, flag, padding);
}

/// The text of the column before a heading.
pub fn huge_flag(flag: &Option<String>, padding: usize) -> (r: String)
    ensures
        r@ == prefix_text(
            match *flag {
                Some(f) => Some(f@),
                None => None,
            },
            padding as int,
        ),
{
    let mut out = String::new();
    match flag {
        Some(f) => push_flag(&mut out, f.as_str(), padding),
        None => {
            proof {
                reveal_strlit("-");
            }
            assert("-"@ =~= seq!['-']);
            push_padded_start(&mut out, "-", padding);
        },
    }
    assert(out@ =~= Seq::<char>::empty() + out@);
    out
}

/// The text of the column behind a heading.
pub fn huge_flag_str(flag: &Option<&str>, padding: usize) -> (r: String)
    ensures
        r@ == suffix_text(
            match *flag {
                Some(f) => Some(f@),
                None => None,
            },
            padding as int,
        ),
{
    let mut out = String::new();
    match flag {
        Some(f) => push_flag(&mut out, f, padding),
        None => {
            push_repeated(&mut out, ' ', padding);
        },
    }
    assert(out@ =~= Seq::<char>::empty() + out@);
    out
}

/// The larger of two numbers.
pub open spec fn larger(a: nat, b: nat) -> nat {
    if a >= b {
        a
    } else {
        b
    }
}

/// The length in bytes of the longest of `lines`.
pub open spec fn widest_line(lines: Seq<Seq<char>>) -> nat
    decreases lines.len(),
{
    if lines.len() == 0 {
        0
    } else {
        larger(widest_line(lines.drop_last()), byte_len(lines.last()))
    }
}

/// The space that the left half of a cell needs: the length in bytes of the
/// longest left part of a heading or line of detail among `states`.
pub open spec fn widest_start(states: Seq<StateModel>) -> nat
    decreases states.len(),
{
    if states.len() == 0 {
        0
    } else {
        larger(
            larger(
                widest_start(states.drop_last()),
                byte_len(states.last().label.content_start),
            ),
            widest_line(states.last().lines),
        )
    }
}

/// The space that the right half of a cell needs: the length in bytes of the
/// longest right part of a heading among `states`.
pub open spec fn widest_end(states: Seq<StateModel>) -> nat
    decreases states.len(),
{
    if states.len() == 0 {
        0
    } else {
        larger(widest_end(states.drop_last()), byte_len(states.last().label.content_end))
    }
}

/// The number of lines of detail in each cell: that of the last bay.
pub open spec fn spec_line_count(states: Seq<StateModel>) -> nat {
    if states.len() == 0 {
        0
    } else {
        states.last().lines.len()
    }
}

/// Every bay carries the same number of lines of detail.
pub open spec fn uniform_lines(states: Seq<StateModel>) -> bool {
    forall|i: int|
        0 <= i < states.len() ==> (#[trigger] states[i]).lines.len() == spec_line_count(states)
}

/// The glyph of which the top border is made.
pub open spec fn full_block() -> char {
    '\u{2588}'
}

/// The glyph of which the rule above each row is made.
pub open spec fn rule_glyph() -> char {
    '\u{2581}'
}

/// The glyph that separates the columns.
pub open spec fn column_glyph() -> char {
    '\u{258F}'
}

/// The text that ends a coloured run.
pub open spec fn reset_text() -> Seq<char> {
    "\x1b[0m"@
}

/// The heading of a cell: colour, prefix, the left part filled up behind it,
/// the right part filled up before it, suffix, and the end of the colour.
pub open spec fn label_text(
    color: Seq<char>,
    label: LabelModel,
    start_width: int,
    end_width: int,
) -> Seq<char> {
    color + prefix_text(label.prefix, PADDING_PREFIX as int) + padded_end(
        label.content_start,
        start_width,
    ) + padded_start(label.content_end, end_width) + suffix_text(
        label.suffix,
        PADDING_SUFFIX as int,
    ) + reset_text()
}

/// A line of detail in a cell: colour, the blank prefix column, the line
/// filled up behind it, the blank suffix column, and the end of the colour.
pub open spec fn detail_text(color: Seq<char>, line: Seq<char>, content_width: int) -> Seq<char> {
    color + repeated(' ', PADDING_PREFIX as int) + padded_end(line, content_width) + repeated(
        ' ',
        PADDING_SUFFIX as int,
    ) + reset_text()
}

/// Each of `lines`, closed by `sep` and a line feed.
pub open spec fn joined_lines(lines: Seq<Seq<char>>, sep: Seq<char>) -> Seq<char>
    decreases lines.len(),
{
    if lines.len() == 0 {
        Seq::empty()
    } else {
        joined_lines(lines.drop_last(), sep) + lines.last() + sep + seq!['\n']
    }
}

/// What a `Vec` of texts holds.
pub open spec fn texts(lines: Seq<String>) -> Seq<Seq<char>> {
    Seq::new(lines.len(), |k: int| lines[k]@)
}

/// A shelf laid out for drawing.
pub struct Grid {
    /// What each bay shows, by the number of the bay.
    pub states: Seq<StateModel>,
    /// The bays in drawing order.
    pub order: Seq<int>,
    /// The number of cells in a row.
    pub width: int,
    /// The columns of the left half of a cell.
    pub start_width: int,
    /// The columns of the right half of a cell.
    pub end_width: int,
}

impl Grid {
    /// The columns of both halves of a cell.
    pub open spec fn content_width(self) -> int {
        self.start_width + self.end_width
    }

    /// The characters of a row: its cells, each with its separator and
    /// padding columns.
    pub open spec fn row_chars(self) -> int {
        (self.content_width() + 1 + PADDING_PREFIX + PADDING_SUFFIX) * self.width
    }

    /// The number of rows.
    pub open spec fn height(self) -> int {
        (self.states.len() as int) / self.width
    }

    /// What the cell at position `i` of the drawing order shows.
    pub open spec fn cell(self, i: int) -> StateModel {
        self.states[self.order[i]]
    }

    /// The groups among the first `i` cells, in the order in which each is
    /// first seen.
    pub open spec fn seen_before(self, i: int) -> Seq<Seq<char>>
        decreases i,
    {
        if i <= 0 {
            Seq::empty()
        } else {
            match self.cell(i - 1).group {
                Some(key) => seen_after(self.seen_before(i - 1), key),
                None => self.seen_before(i - 1),
            }
        }
    }

    /// The colour of the cell at position `i`: for a device, the colour of
    /// the palette at the place at which its group was first seen; for an
    /// empty bay, none.
    pub open spec fn color_at(self, i: int) -> Seq<char> {
        match self.cell(i).group {
            Some(key) => palette(self.seen_before(i + 1).index_of(key)),
            None => Seq::empty(),
        }
    }

    /// The heading of the cell at position `i`.
    pub open spec fn label_cell(self, i: int) -> Seq<char> {
        label_text(self.color_at(i), self.cell(i).label, self.start_width, self.end_width)
    }

    /// Line `k` of the detail of the cell at position `i`.
    pub open spec fn detail_cell(self, i: int, k: int) -> Seq<char> {
        detail_text(self.color_at(i), self.cell(i).lines[k], self.content_width())
    }

    /// The headings of the first `upto` cells of row `r`, each behind a
    /// column separator.
    pub open spec fn row_labels(self, r: int, upto: int) -> Seq<char>
        decreases upto,
    {
        if upto <= 0 {
            Seq::empty()
        } else {
            self.row_labels(r, upto - 1) + seq![column_glyph()] + self.label_cell(
                r * self.width + upto - 1,
            )
        }
    }

    /// Line `k` of the detail of the first `upto` cells of row `r`, each
    /// behind a column separator.
    pub open spec fn row_band(self, r: int, k: int, upto: int) -> Seq<char>
        decreases upto,
    {
        if upto <= 0 {
            Seq::empty()
        } else {
            self.row_band(r, k, upto - 1) + seq![column_glyph()] + self.detail_cell(
                r * self.width + upto - 1,
                k,
            )
        }
    }

    /// The bands of detail below the headings of row `r`.
    pub open spec fn row_bands(self, r: int) -> Seq<Seq<char>> {
        Seq::new(spec_line_count(self.states), |k: int| self.row_band(r, k, self.width))
    }

    /// The rule above a row.
    pub open spec fn rule(self) -> Seq<char> {
        repeated(rule_glyph(), self.row_chars())
    }

    /// Row `r`: the rule, the line of headings, and the bands of detail.
    pub open spec fn row_block(self, r: int) -> Seq<char> {
        self.rule() + seq!['\n'] + self.row_labels(r, self.width) + seq![column_glyph(), '\n']
            + joined_lines(self.row_bands(r), seq![column_glyph()])
    }

    /// The first `upto` rows.
    pub open spec fn rows(self, upto: int) -> Seq<char>
        decreases upto,
    {
        if upto <= 0 {
            Seq::empty()
        } else {
            self.rows(upto - 1) + self.row_block(upto - 1)
        }
    }

    /// What stands above the rows: the top border, and on the line below it
    /// the title in the middle of a run of dashes.
    pub open spec fn head(self, title: Option<Seq<char>>) -> Seq<char> {
        repeated(full_block(), self.row_chars()) + seq!['\n'] + (match title {
            Some(t) => centered(t, self.row_chars(), '-'),
            None => Seq::empty(),
        })
    }

    /// The whole grid: the head, the rows, and a closing rule. Without bays
    /// there is a lone column separator in the place of the rows.
    pub open spec fn text(self, title: Option<Seq<char>>) -> Seq<char> {
        self.head(title) + (if self.states.len() == 0 {
            seq![column_glyph(), '\n']
        } else {
            seq!['\n'] + self.rows(self.height())
        }) + self.rule()
    }
}

/// How a shelf is to be drawn.
pub struct ConsoleViewer {
    /// The number of cells in a row.
    pub width: usize,
    /// The title above the grid.
    pub title: Option<String>,
    /// How the rows relate to the numbering of the bays.
    pub slot_order: SlotPrintOrder,
}

/// The layout of `states` in rows of `width` cells. Each half of a cell is
/// one column wider than its longest content.
pub open spec fn grid_of(order: SlotPrintOrder, width: usize, states: Seq<StateModel>) -> Grid {
    Grid {
        states,
        order: order.spec_order(states.len() as int, width as int),
        width: width as int,
        start_width: widest_start(states) as int + 1,
        end_width: widest_end(states) as int + 1,
    }
}

/// What drawing `states` gives: the text of the grid, or the reason why
/// there is none.
pub open spec fn rendered(
    order: SlotPrintOrder,
    width: usize,
    title: Option<Seq<char>>,
    states: Seq<StateModel>,
) -> Result<Seq<char>, SError> {
    let grid = grid_of(order, width, states);
    if !valid_layout(states.len() as int, width as int) {
        Err(SError::InvalidLayout)
    } else if !uniform_lines(states) {
        Err(SError::LineCountMismatch)
    } else if grid.row_chars() > usize::MAX {
        Err(SError::GridTooLarge)
    } else if grid.seen_before(states.len() as int).len() > PALETTE_SIZE {
        Err(SError::PaletteExhausted)
    } else {
        Ok(grid.text(title))
    }
}

impl ConsoleViewer {
    /// The title as text.
    pub open spec fn spec_title(&self) -> Option<Seq<char>> {
        match self.title {
            Some(t) => Some(t@),
            None => None,
        }
    }

    /// The layout of `states` under this configuration.
    pub open spec fn grid(&self, states: Seq<StateModel>) -> Grid {
        grid_of(self.slot_order, self.width, states)
    }

    /// What drawing `states` under this configuration gives.
    pub open spec fn spec_render(&self, states: Seq<StateModel>) -> Result<Seq<char>, SError> {
        rendered(self.slot_order, self.width, self.spec_title(), states)
    }
}

/// The number of lines of detail that every bay carries, if they agree.
pub fn line_count(states: &[SlotState]) -> (r: Option<usize>)
    ensures
        uniform_lines(models(states@)) ==> r is Some && r->Some_0 == spec_line_count(
            models(states@),
        ),
        !uniform_lines(models(states@)) ==> r is None,
{
    let n: usize = states.len();
    if n == 0 {
        return Some(0);
    }
    let count: usize = states[n - 1].lines().len();
    let mut i: usize = 0;
    while i < n
        invariant
            i <= n,
            n == states@.len(),
            n > 0,
            count == spec_line_count(models(states@)),
            forall|j: int| 0 <= j < i ==> (#[trigger] models(states@)[j]).lines.len() == count,
        decreases n - i,
    {
        if states[i].lines().len() != count {
            assert(models(states@)[i as int].lines.len() != count);
            return None;
        }
        i = i + 1;
    }
    Some(count)
}

fn measure_lines(lines: &Vec<SlotLine>) -> (r: usize)
    ensures
        r == widest_line(line_texts(lines@)),
{
    let mut widest: usize = 0;
    let mut k: usize = 0;
    while k < lines.len()
        invariant
            k <= lines@.len(),
            widest == widest_line(line_texts(lines@).take(k as int)),
        decreases lines@.len() - k,
    {
        let len: usize = byte_length(lines[k].line.as_str());
        proof {
            assert(line_texts(lines@).take(k + 1).drop_last() =~= line_texts(lines@).take(
                k as int,
            ));
        }
        if len > widest {
            widest = len;
        }
        k = k + 1;
    }
    proof {
        assert(line_texts(lines@).take(lines@.len() as int) =~= line_texts(lines@));
    }
    widest
}

/// The space that the two halves of a cell need for `states`.
pub fn measure(states: &[SlotState]) -> (r: (usize, usize))
    ensures
        r.0 == widest_start(models(states@)),
        r.1 == widest_end(models(states@)),
{
    let mut start: usize = 0;
    let mut end: usize = 0;
    let mut i: usize = 0;
    while i < states.len()
        invariant
            i <= states@.len(),
            start == widest_start(models(states@).take(i as int)),
            end == widest_end(models(states@).take(i as int)),
        decreases states@.len() - i,
    {
        let label = states[i].label();
        let start_len: usize = byte_length(label.content_start.as_str());
        let end_len: usize = byte_length(label.content_end.as_str());
        let lines_len: usize = measure_lines(states[i].lines());
        proof {
            assert(models(states@).take(i + 1).drop_last() =~= models(states@).take(i as int));
        }
        if start_len > start {
            start = start_len;
        }
        if lines_len > start {
            start = lines_len;
        }
        if end_len > end {
            end = end_len;
        }
        i = i + 1;
    }
    proof {
        assert(models(states@).take(states@.len() as int) =~= models(states@));
    }
    (start, end)
}

fn push_label(out: &mut String, color: &str, label: &SlotLabel, start_width: usize, end_width: usize)
    ensures
        final(out)@ == old(out)@ + label_text(
            color@,
            label@,
            start_width as int,
            end_width as int,
        ),
{
    out.append(color);
    let prefix = huge_flag(&label.prefix, PADDING_PREFIX);
    out.append(prefix.as_str());
    push_padded_end(out, label.content_start.as_str(), start_width);
    push_padded_start(out, label.content_end.as_str(), end_width);
    let suffix = huge_flag_str(&label.suffix, PADDING_SUFFIX);
    out.append(suffix.as_str());
    out.append("\x1b[0m");
    assert(out@ =~= old(out)@ + label_text(color@, label@, start_width as int, end_width as int));
}

fn push_detail(out: &mut String, color: &str, line: &str, content_width: usize)
    ensures
        final(out)@ == old(out)@ + seq![column_glyph()] + detail_text(
            color@,
            line@,
            content_width as int,
        ),
{
    proof {
        reveal_strlit("\u{258F}");
    }
    out.append("\u{258F}");
    out.append(color);
    push_repeated(out, ' ', PADDING_PREFIX);
    push_padded_end(out, line, content_width);
    push_repeated(out, ' ', PADDING_SUFFIX);
    out.append("\x1b[0m");
    assert(out@ =~= old(out)@ + seq![column_glyph()] + detail_text(
        color@,
        line@,
        content_width as int,
    ));
}

fn blank_lines(count: usize) -> (r: Vec<String>)
    ensures
        r@.len() == count,
        forall|k: int| 0 <= k < count ==> (#[trigger] r@[k])@ == Seq::<char>::empty(),
{
    let mut lines: Vec<String> = Vec::new();
    let mut k: usize = 0;
    while k < count
        invariant
            k <= count,
            lines@.len() == k,
            forall|j: int| 0 <= j < k ==> (#[trigger] lines@[j])@ == Seq::<char>::empty(),
        decreases count - k,
    {
        lines.push(String::new());
        k = k + 1;
    }
    lines
}

/// Appends each buffered line, closed by the column separator and a line
/// feed.
pub fn append_lines(slot_line_buffer: Vec<String>, output: &mut String, column_sep: &str)
    ensures
        final(output)@ == old(output)@ + joined_lines(texts(slot_line_buffer@), column_sep@),
{
    proof {
        reveal_strlit("\n");
    }
    let mut k: usize = 0;
    while k < slot_line_buffer.len()
        invariant
            k <= slot_line_buffer@.len(),
            "\n"@ == seq!['\n'],
            output@ == old(output)@ + joined_lines(
                texts(slot_line_buffer@).take(k as int),
                column_sep@,
            ),
        decreases slot_line_buffer@.len() - k,
    {
        proof {
            assert(texts(slot_line_buffer@).take(k + 1).drop_last() =~= texts(
                slot_line_buffer@,
            ).take(k as int));
        }
        output.append(slot_line_buffer[k].as_str());
        output.append(column_sep);
        output.append("\n");
        k = k + 1;
        assert(output@ =~= old(output)@ + joined_lines(
            texts(slot_line_buffer@).take(k as int),
            column_sep@,
        ));
    }
    proof {
        assert(texts(slot_line_buffer@).take(slot_line_buffer@.len() as int) =~= texts(
            slot_line_buffer@,
        ));
    }
}

impl Grid {
    /// The groups seen never become fewer as more cells are drawn.
    pub proof fn lemma_seen_grows(self, i: int, j: int)
        requires
            i <= j,
        ensures
            self.seen_before(i).len() <= self.seen_before(j).len(),
        decreases j - i,
    {
        if i < j {
            self.lemma_seen_grows(i, j - 1);
        }
    }
}

impl ConsoleViewer {
    /// Draws row `r`: the rule, the headings of its cells, and the bands of
    /// detail below them, which are gathered cell by cell while the headings
    /// are written.
    fn push_row(
        &self,
        out: &mut String,
        colors: &mut ColorMap,
        states: &[SlotState],
        order: &Vec<usize>,
        row_sep: &str,
        r: usize,
        cell_lines: usize,
        start_width: usize,
        end_width: usize,
    ) -> (res: Result<(), SError>)
        requires
            old(colors).wf(),
            valid_layout(states@.len() as int, self.width as int),
            uniform_lines(models(states@)),
            order@.map_values(|v: usize| v as int) == self.grid(models(states@)).order,
            cell_lines == spec_line_count(models(states@)),
            start_width == self.grid(models(states@)).start_width,
            end_width == self.grid(models(states@)).end_width,
            start_width + end_width <= usize::MAX,
            r < self.grid(models(states@)).height(),
            row_sep@ == self.grid(models(states@)).rule(),
            old(colors).keys() == self.grid(models(states@)).seen_before(r * self.width),
        ensures
            final(colors).wf(),
            res is Ok ==> final(out)@ == old(out)@ + self.grid(models(states@)).row_block(r as int),
            res is Ok ==> final(colors).keys() == self.grid(models(states@)).seen_before(
                (r + 1) * self.width,
            ),
            res is Err ==> res == Err::<(), SError>(SError::PaletteExhausted),
            res is Err ==> self.grid(models(states@)).seen_before(states@.len() as int).len()
                > PALETTE_SIZE,
    {
        let ghost grid = self.grid(models(states@));
        let width: usize = self.width;
        let total: usize = states.len();
        let content_width: usize = start_width + end_width;
        proof {
            reveal_strlit("\n");
            reveal_strlit("\u{258F}");
            reveal_strlit("");
            vstd::arithmetic::div_mod::lemma_fundamental_div_mod(
                states@.len() as int,
                width as int,
            );
            assert(grid.height() * width == width * grid.height()) by (nonlinear_arith);
            assert(order@.map_values(|v: usize| v as int).len() == order@.len());
        }
        out.append(row_sep);
        out.append("\n");
        let mut buffer: Vec<String> = blank_lines(cell_lines);
        let mut c: usize = 0;
        while c < width
            invariant
                c <= width,
                width == self.width,
                grid == self.grid(models(states@)),
                valid_layout(states@.len() as int, width as int),
                uniform_lines(models(states@)),
                order@.map_values(|v: usize| v as int) == grid.order,
                cell_lines == spec_line_count(models(states@)),
                start_width == grid.start_width,
                end_width == grid.end_width,
                content_width == start_width + end_width,
                r < grid.height(),
                grid.height() * width == states@.len(),
                states@.len() == total,
                order@.len() == total,
                "\u{258F}"@ == seq![column_glyph()],
                ""@ == Seq::<char>::empty(),
                out@ == old(out)@ + grid.rule() + seq!['\n'] + grid.row_labels(r as int, c as int),
                buffer@.len() == cell_lines,
                forall|k: int|
                    0 <= k < cell_lines ==> (#[trigger] buffer@[k])@ == grid.row_band(
                        r as int,
                        k,
                        c as int,
                    ),
                colors.wf(),
                colors.keys() == grid.seen_before(r * width + c),
            decreases width - c,
        {
            proof {
                lemma_cell_bounds(grid.height(), width as int, r as int, c as int);
            }
            let i: usize = r * width + c;
            proof {
                lemma_position(self.slot_order, states@.len() as int, width as int, i as int);
                assert(order@.map_values(|v: usize| v as int)[i as int] == order@[i as int]);
            }
            let bay: usize = order[i];
            let slot = &states[bay];
            assert(slot@ == grid.cell(i as int));
            out.append("\u{258F}");
            let label_color: &str = match slot {
                SlotState::Device(group_key, _, _) => {
                    match colors.get_color(group_key.as_str()) {
                        Ok(color) => color,
                        Err(e) => {
                            proof {
                                grid.lemma_seen_grows(i + 1, states@.len() as int);
                            }
                            return Err(e);
                        },
                    }
                },
                SlotState::Empty(_, _) => "",
            };
            assert(label_color@ == grid.color_at(i as int));
            assert(colors.keys() == grid.seen_before(i + 1));
            push_label(out, label_color, slot.label(), start_width, end_width);
            assert(out@ =~= old(out)@ + grid.rule() + seq!['\n'] + grid.row_labels(
                r as int,
                c + 1,
            ));
            let lines = slot.lines();
            let mut k: usize = 0;
            while k < cell_lines
                invariant
                    k <= cell_lines,
                    c < width,
                    i == r * width + c,
                    grid.width == width,
                    line_texts(lines@) == grid.cell(i as int).lines,
                    lines@.len() == cell_lines,
                    content_width == grid.content_width(),
                    label_color@ == grid.color_at(i as int),
                    buffer@.len() == cell_lines,
                    forall|j: int|
                        0 <= j < k ==> (#[trigger] buffer@[j])@ == grid.row_band(
                            r as int,
                            j,
                            c + 1,
                        ),
                    forall|j: int|
                        k <= j < cell_lines ==> (#[trigger] buffer@[j])@ == grid.row_band(
                            r as int,
                            j,
                            c as int,
                        ),
                decreases cell_lines - k,
            {
                push_detail(&mut buffer[k], label_color, lines[k].line.as_str(), content_width);
                k = k + 1;
            }
            c = c + 1;
        }
        out.append("\u{258F}");
        out.append("\n");
        assert(texts(buffer@) =~= grid.row_bands(r as int));
        append_lines(buffer, out, "\u{258F}");
        assert(out@ =~= old(out)@ + grid.row_block(r as int));
        assert(r * width + width == (r + 1) * width) by (nonlinear_arith);
        Ok(())
    }
}

/// The characters of a row whose cells need `start` and `end` columns for
/// their halves, where the machine can count them.
fn row_width(start: usize, end: usize, width: usize) -> (r: Option<usize>)
    requires
        width > 0,
    ensures
        (start + 1 + end + 1 + 1 + PADDING_PREFIX + PADDING_SUFFIX) * width <= usize::MAX ==> r
            == Some(((start + 1 + end + 1 + 1 + PADDING_PREFIX + PADDING_SUFFIX) * width) as usize),
        (start + 1 + end + 1 + 1 + PADDING_PREFIX + PADDING_SUFFIX) * width > usize::MAX ==> r
            is None,
{
    let ghost cell: int = start + 1 + end + 1 + 1 + PADDING_PREFIX + PADDING_SUFFIX;
    proof {
        assert(cell * width >= cell) by (nonlinear_arith)
            requires
                width >= 1,
                cell >= 0,
        ;
    }
    let content: usize = match start.checked_add(end) {
        Some(n) => n,
        None => {
            return None;
        },
    };
    let cell_width: usize = match content.checked_add(3 + PADDING_PREFIX + PADDING_SUFFIX) {
        Some(n) => n,
        None => {
            return None;
        },
    };
    cell_width.checked_mul(width)
}

impl ConsoleViewer {
    /// Draws the shelf. The bays are taken in drawing order; bays of one
    /// group share a colour, given in the order in which the groups are first
    /// drawn; empty bays stay uncoloured.
    ///
    /// There is no grid where the width does not divide the number of bays,
    /// where the bays differ in their number of lines of detail, where a row
    /// would be longer than the machine can count, or where the bays belong
    /// to more groups than the palette has colours.
    pub fn render(&self, states: &[SlotState]) -> (r: Result<String, SError>)
        ensures
            match self.spec_render(models(states@)) {
                Ok(text) => r is Ok && r->Ok_0@ == text,
                Err(e) => r == Err::<String, SError>(e),
            },
    {
        let ghost grid = self.grid(models(states@));
        let total: usize = states.len();
        let width: usize = self.width;
        let order: Vec<usize> = match self.slot_order.order(total, width) {
            Ok(order) => order,
            Err(e) => {
                return Err(e);
            },
        };
        let cell_lines: usize = match line_count(states) {
            Some(count) => count,
            None => {
                return Err(SError::LineCountMismatch);
            },
        };
        let (widest_start, widest_end) = measure(states);
        let row_char_len: usize = match row_width(widest_start, widest_end, width) {
            Some(n) => n,
            None => {
                return Err(SError::GridTooLarge);
            },
        };
        proof {
            assert(grid.row_chars() >= grid.content_width()) by (nonlinear_arith)
                requires
                    grid.row_chars() == (grid.content_width() + 1 + PADDING_PREFIX
                        + PADDING_SUFFIX) * grid.width,
                    grid.width >= 1,
                    grid.content_width() >= 0,
            ;
        }
        let cell_start_width: usize = widest_start + 1;
        let cell_end_width: usize = widest_end + 1;
        let height: usize = total / width;
        proof {
            reveal_strlit("\n");
            reveal_strlit("\u{258F}");
            vstd::arithmetic::div_mod::lemma_fundamental_div_mod(total as int, width as int);
            assert(height * width == width * height) by (nonlinear_arith);
        }
        let mut row_sep = String::new();
        push_repeated(&mut row_sep, '\u{2581}', row_char_len);
        assert(row_sep@ =~= grid.rule());
        let mut output = String::new();
        push_repeated(&mut output, '\u{2588}', row_char_len);
        output.append("\n");
        match &self.title {
            Some(title) => {
                push_centered(&mut output, title.as_str(), row_char_len, '-');
            },
            None => {},
        }
        let ghost head = output@;
        assert(head =~= grid.head(self.spec_title()));
        let mut pool_colors = ColorMap::default();
        if total == 0 {
            output.append("\u{258F}");
            output.append("\n");
            assert(output@ =~= head + seq![column_glyph(), '\n']);
        } else {
            output.append("\n");
            let mut r: usize = 0;
            while r < height
                invariant
                    r <= height,
                    width == self.width,
                    total == states@.len(),
                    height == grid.height(),
                    height * width == total,
                    grid == self.grid(models(states@)),
                    valid_layout(states@.len() as int, width as int),
                    uniform_lines(models(states@)),
                    order@.map_values(|v: usize| v as int) == grid.order,
                    cell_lines == spec_line_count(models(states@)),
                    cell_start_width == grid.start_width,
                    cell_end_width == grid.end_width,
                    cell_start_width + cell_end_width <= usize::MAX,
                    grid.row_chars() <= usize::MAX,
                    row_sep@ == grid.rule(),
                    pool_colors.wf(),
                    pool_colors.keys() == grid.seen_before(r * width),
                    output@ == head + seq!['\n'] + grid.rows(r as int),
                decreases height - r,
            {
                match self.push_row(
                    &mut output,
                    &mut pool_colors,
                    states,
                    &order,
                    row_sep.as_str(),
                    r,
                    cell_lines,
                    cell_start_width,
                    cell_end_width,
                ) {
                    Ok(()) => {},
                    Err(e) => {
                        return Err(e);
                    },
                }
                r = r + 1;
                assert(output@ =~= head + seq!['\n'] + grid.rows(r as int));
            }
            assert(output@ =~= head + (seq!['\n'] + grid.rows(height as int)));
        }
        proof {
            lemma_keys_bounded(pool_colors);
        }
        output.append(row_sep.as_str());
        assert(output@ =~= grid.text(self.spec_title()));
        Ok(output)
    }
}

/// Drawing depends on nothing but the configuration and what the bays show:
/// two shelves that show the same, drawn alike, give the same text, and
/// fail alike where there is none.
pub proof fn lemma_render_deterministic(
    a: ConsoleViewer,
    b: ConsoleViewer,
    x: Seq<SlotState>,
    y: Seq<SlotState>,
)
    requires
        a.width == b.width,
        a.slot_order == b.slot_order,
        a.spec_title() == b.spec_title(),
        x.len() == y.len(),
        forall|i: int| 0 <= i < x.len() ==> x[i]@ == y[i]@,
    ensures
        a.spec_render(models(x)) == b.spec_render(models(y)),
{
    assert(models(x) =~= models(y));
}

} // verus!
