//! Markdown rendering of headings, paragraphs, lists, code, quotes and
//! tables.

use vstd::prelude::*;
use vstd::string::StrSliceExecFns;
use crate::text::{
    char_count, lines, lines_of, repeat, repeat_char, starts_with, starts_with_seq, texts, trim_of, trimmed,
    words, words_of,
};

verus! {

#[derive(Debug, Clone)]
pub struct MarkdownRenderOptions {
    pub include_page_breaks: bool,
    pub include_page_numbers: bool,
    pub use_html_fallback: bool,
    pub image_path_prefix: String,
    pub code_line_numbers: bool,
    pub wrap_lines: bool,
    pub max_line_length: usize,
}

impl Default for MarkdownRenderOptions {
    fn default() -> (r: MarkdownRenderOptions)
        ensures
            r.include_page_breaks,
            r.include_page_numbers,
            !r.use_html_fallback,
            r.image_path_prefix@ == "images/"@,
            !r.code_line_numbers,
            !r.wrap_lines,
            r.max_line_length == 80,
    {
        MarkdownRenderOptions {
            include_page_breaks: true,
            include_page_numbers: true,
            use_html_fallback: false,
            image_path_prefix: String::from_str("images/"),
            code_line_numbers: false,
            wrap_lines: false,
            max_line_length: 80,
        }
    }
}

/// A table of `rows` by `cols` text cells.
#[derive(Debug, Clone)]
pub struct TableStructure {
    pub rows: usize,
    pub cols: usize,
    pub cells: Vec<Vec<String>>,
    pub has_header: bool,
}

impl TableStructure {
    pub open spec fn wf(&self) -> bool {
        &&& self.cells@.len() == self.rows
        &&& forall|r: int| 0 <= r < self.rows ==> (#[trigger] self.cells@[r])@.len() == self.cols
    }

    /// An empty table.
    pub fn new(rows: usize, cols: usize) -> (t: TableStructure)
        ensures
            t.wf(),
            t.rows == rows && t.cols == cols && !t.has_header,
            forall|r: int, c: int| 0 <= r < rows && 0 <= c < cols ==> (#[trigger] t.cells@[r]@[c])@.len() == 0,
    {
        let mut cells: Vec<Vec<String>> = Vec::new();
        let mut r: usize = 0;
        while r < rows
            invariant
                r <= rows,
                cells@.len() == r,
                forall|i: int| 0 <= i < r ==> (#[trigger] cells@[i])@.len() == cols,
                forall|i: int, c: int| 0 <= i < r && 0 <= c < cols ==> (#[trigger] cells@[i]@[c])@.len() == 0,
            decreases rows - r,
        {
            let mut row: Vec<String> = Vec::new();
            let mut c: usize = 0;
            while c < cols
                invariant
                    c <= cols,
                    row@.len() == c,
                    forall|k: int| 0 <= k < c ==> (#[trigger] row@[k])@.len() == 0,
                decreases cols - c,
            {
                row.push(String::new());
                c = c + 1;
            }
            cells.push(row);
            r = r + 1;
        }
        TableStructure { rows, cols, cells, has_header: false }
    }

    /// Sets a cell inside the table; positions outside are ignored.
    pub fn set_cell(&mut self, row: usize, col: usize, value: String)
        requires
            old(self).wf(),
        ensures
            final(self).wf(),
            final(self).rows == old(self).rows && final(self).cols == old(self).cols,
            final(self).has_header == old(self).has_header,
            row < old(self).rows && col < old(self).cols ==> final(self).cells@[row as int]@ == old(
                self,
            ).cells@[row as int]@.update(col as int, value),
            !(row < old(self).rows && col < old(self).cols) ==> final(self).cells@ == old(self).cells@,
            forall|r: int| 0 <= r < old(self).rows && r != row ==> #[trigger] final(self).cells@[r] == old(self).cells@[r],
    {
        if row < self.rows && col < self.cols {
            let mut line = self.cells[row].clone();
            assert(line@ =~= self.cells@[row as int]@);
            line.set(col, value);
            self.cells.set(row, line);
        }
    }

    /// The text of a cell, if the position lies in the table.
    pub fn get_cell(&self, row: usize, col: usize) -> (r: Option<&str>)
        requires
            self.wf(),
        ensures
            row < self.rows && col < self.cols ==> r is Some && r->0@ == self.cells@[row as int]@[col as int]@,
            !(row < self.rows && col < self.cols) ==> r is None,
    {
        if row < self.cells.len() && col < self.cells[row].len() {
            Some(self.cells[row][col].as_str())
        } else {
            None
        }
    }
}

/// Renders page content as Markdown.
pub struct MarkdownRenderer {
    pub options: MarkdownRenderOptions,
}

pub open spec fn clamp_level(level: u8) -> nat {
    if level < 1 { 1 } else if level > 6 { 6 } else { level as nat }
}

/// Greedy wrapping of `ws`: the finished lines (each followed by a line
/// break) and the line being filled. A word joins the current line while
/// the line stays within `max` characters.
pub open spec fn wrap_state(ws: Seq<Seq<char>>, max: int) -> (Seq<char>, Seq<char>)
    decreases ws.len(),
{
    if ws.len() == 0 {
        (Seq::empty(), Seq::empty())
    } else {
        let (done, cur) = wrap_state(ws.drop_last(), max);
        let w = ws.last();
        if cur.len() == 0 {
            (done, w)
        } else if cur.len() + 1 + w.len() <= max {
            (done, cur + seq![' '] + w)
        } else {
            (done + cur + seq!['\n'], w)
        }
    }
}

pub open spec fn wrapped(text: Seq<char>, max: int) -> Seq<char> {
    let (done, cur) = wrap_state(words_of(text), max);
    done + cur
}

/// Lines prefixed with `> ` and joined by line breaks.
pub open spec fn quoted(ls: Seq<Seq<char>>) -> Seq<char>
    decreases ls.len(),
{
    if ls.len() == 0 {
        Seq::empty()
    } else if ls.len() == 1 {
        "> "@ + ls[0]
    } else {
        quoted(ls.drop_last()) + "\n"@ + "> "@ + ls.last()
    }
}

/// The text of a list item without its marker.
pub open spec fn list_body(t: Seq<char>) -> Seq<char> {
    if starts_with_seq(t, "• "@) || starts_with_seq(t, "・"@) {
        t.skip(1)
    } else if starts_with_seq(t, "- "@) {
        t.skip(2)
    } else {
        t
    }
}

/// Column width: at least three, and the longest cell of the column.
pub open spec fn column_width(cells: Seq<Vec<String>>, col: int, rows: int) -> int
    decreases rows,
{
    if rows <= 0 {
        3
    } else {
        let prev = column_width(cells, col, rows - 1);
        let row = cells[rows - 1]@;
        if col < row.len() && row[col]@.len() > prev { row[col]@.len() as int } else { prev }
    }
}

/// `text` padded with spaces to `width` characters.
pub open spec fn padded(text: Seq<char>, width: int) -> Seq<char> {
    text + repeat(' ', if width > text.len() { (width - text.len()) as nat } else { 0 })
}

/// One table row: `|` then ` cell |` per cell, then a line break.
pub open spec fn table_row(row: Seq<String>, widths: Seq<usize>, k: int) -> Seq<char>
    decreases k,
{
    if k <= 0 {
        "|"@
    } else {
        let w = if k - 1 < widths.len() { widths[k - 1] as int } else { 3 };
        table_row(row, widths, k - 1) + " "@ + padded(row[k - 1]@, w) + " |"@
    }
}

/// The separator row: ` --- |` of each column's width.
pub open spec fn rule_row(widths: Seq<usize>, k: int) -> Seq<char>
    decreases k,
{
    if k <= 0 {
        "|"@
    } else {
        rule_row(widths, k - 1) + " "@ + repeat('-', widths[k - 1] as nat) + " |"@
    }
}

impl MarkdownRenderer {
    pub fn new() -> (r: MarkdownRenderer)
        ensures
            r.options.include_page_breaks && r.options.include_page_numbers && !r.options.wrap_lines,
            r.options.max_line_length == 80,
    {
        MarkdownRenderer { options: MarkdownRenderOptions::default() }
    }

    pub fn with_options(options: MarkdownRenderOptions) -> (r: MarkdownRenderer)
        ensures
            r.options == options,
    {
        MarkdownRenderer { options }
    }

    /// `#` repeated for the level (clamped to 1..=6), a space, the trimmed
    /// text and a blank line.
    pub fn render_heading(&self, text: &str, level: u8) -> (r: String)
        ensures
            r@ == repeat('#', clamp_level(level)) + " "@ + trim_of(text@) + "\n\n"@,
    {
        let l: usize = if level < 1 { 1 } else if level > 6 { 6 } else { level as usize };
        let mut s = repeat_char('#', l);
        s.append(" ");
        s.append(trimmed(text));
        s.append("\n\n");
        s
    }

    /// Words of `text` wrapped greedily into lines of at most `max_length`
    /// characters (a longer word stands alone).
    pub fn wrap_text(&self, text: &str, max_length: usize) -> (r: String)
        ensures
            r@ == wrapped(text@, max_length as int),
    {
        let ws = words(text);
        let mut done = String::new();
        let mut cur = String::new();
        let mut i: usize = 0;
        while i < ws.len()
            invariant
                i <= ws@.len(),
                texts(ws@) == words_of(text@),
                (done@, cur@) == wrap_state(texts(ws@).take(i as int), max_length as int),
            decreases ws.len() - i,
        {
            proof {
                assert(texts(ws@).take(i as int + 1).drop_last() =~= texts(ws@).take(i as int));
                reveal_strlit(" ");
                reveal_strlit("\n");
                assert(" "@ =~= seq![' ']);
                assert("\n"@ =~= seq!['\n']);
            }
            let w = ws[i].as_str();
            assert(w@ == texts(ws@).take(i as int + 1).last());
            let cl = char_count(cur.as_str());
            let wl = char_count(w);
            if cl == 0 {
                cur = w.to_owned();
            } else if (cl as u128) + 1 + (wl as u128) <= max_length as u128 {
                cur.append(" ");
                cur.append(w);
            } else {
                done.append(cur.as_str());
                done.append("\n");
                cur = w.to_owned();
            }
            i = i + 1;
        }
        assert(texts(ws@).take(ws@.len() as int) =~= texts(ws@));
        done.append(cur.as_str());
        done
    }

    /// The trimmed text (wrapped when the options say so) and a blank line;
    /// nothing for blank text.
    pub fn render_paragraph(&self, text: &str) -> (r: String)
        ensures
            trim_of(text@).len() == 0 ==> r@.len() == 0,
            trim_of(text@).len() > 0 && !self.options.wrap_lines ==> r@ == trim_of(text@) + "\n\n"@,
            trim_of(text@).len() > 0 && self.options.wrap_lines ==> r@ == wrapped(
                trim_of(text@),
                self.options.max_line_length as int,
            ) + "\n\n"@,
    {
        let t = trimmed(text);
        if char_count(t) == 0 {
            return String::new();
        }
        let mut s = if self.options.wrap_lines {
            self.wrap_text(t, self.options.max_line_length)
        } else {
            t.to_owned()
        };
        s.append("\n\n");
        s
    }

    /// `- `, the item text without its marker (`• `, `・` or `- `), and a
    /// line break.
    pub fn render_list_item(&self, text: &str) -> (r: String)
        ensures
            r@ == "- "@ + trim_of(list_body(trim_of(text@))) + "\n"@,
    {
        proof {
            reveal_strlit("• ");
            reveal_strlit("・");
            reveal_strlit("- ");
        }
        let t = trimmed(text);
        let n = char_count(t);
        let body: &str = if starts_with(t, "• ") || starts_with(t, "・") {
            t.substring_char(1, n)
        } else if starts_with(t, "- ") {
            t.substring_char(2, n)
        } else {
            t
        };
        assert(body@ == list_body(t@));
        let mut s = String::from_str("- ");
        s.append(trimmed(body));
        s.append("\n");
        s
    }

    /// A fenced code block, with the language after the opening fence.
    pub fn render_code_block(&self, code: &str, language: Option<&str>) -> (r: String)
        ensures
            r@ == "```"@ + match language { Some(l) => l@, None => Seq::<char>::empty() } + "\n"@ + code@
                + "\n```\n\n"@,
    {
        let mut s = String::from_str("```");
        match language {
            Some(l) => s.append(l),
            None => {},
        }
        s.append("\n");
        s.append(code);
        s.append("\n```\n\n");
        s
    }

    /// Each line prefixed with `> `, then a blank line.
    pub fn render_blockquote(&self, text: &str) -> (r: String)
        ensures
            r@ == quoted(lines_of(text@)) + "\n\n"@,
    {
        let ls = lines(text);
        let mut s = String::new();
        let mut i: usize = 0;
        while i < ls.len()
            invariant
                i <= ls@.len(),
                texts(ls@) == lines_of(text@),
                s@ == quoted(texts(ls@).take(i as int)),
            decreases ls.len() - i,
        {
            proof {
                let t = texts(ls@).take(i as int + 1);
                assert(t.drop_last() =~= texts(ls@).take(i as int));
                if i == 0 {
                    assert(t.len() == 1);
                }
            }
            if i > 0 {
                s.append("\n");
            }
            s.append("> ");
            s.append(ls[i].as_str());
            i = i + 1;
        }
        assert(texts(ls@).take(ls@.len() as int) =~= texts(ls@));
        s.append("\n\n");
        s
    }

    fn column_widths(table: &TableStructure) -> (r: Vec<usize>)
        requires
            table.wf(),
        ensures
            r@.len() == table.cols,
            forall|c: int| 0 <= c < table.cols ==> #[trigger] r@[c] == column_width(table.cells@, c, table.rows as int),
    {
        let mut widths: Vec<usize> = Vec::new();
        let mut c: usize = 0;
        while c < table.cols
            invariant
                table.wf(),
                c <= table.cols,
                widths@.len() == c,
                forall|k: int| 0 <= k < c ==> #[trigger] widths@[k] == column_width(table.cells@, k, table.rows as int),
            decreases table.cols - c,
        {
            let mut w: usize = 3;
            let mut r: usize = 0;
            while r < table.rows
                invariant
                    table.wf(),
                    c < table.cols,
                    r <= table.rows,
                    w == column_width(table.cells@, c as int, r as int),
                decreases table.rows - r,
            {
                let row = &table.cells[r];
                if c < row.len() {
                    let l = char_count(row[c].as_str());
                    if l > w {
                        w = l;
                    }
                }
                r = r + 1;
            }
            widths.push(w);
            c = c + 1;
        }
        widths
    }

    fn render_row(row: &Vec<String>, widths: &Vec<usize>) -> (r: String)
        ensures
            r@ == table_row(row@, widths@, row@.len() as int) + "\n"@,
    {
        let mut s = String::from_str("|");
        let mut k: usize = 0;
        while k < row.len()
            invariant
                k <= row@.len(),
                s@ == table_row(row@, widths@, k as int),
            decreases row.len() - k,
        {
            let w: usize = if k < widths.len() { widths[k] } else { 3 };
            let cell = row[k].as_str();
            let l = char_count(cell);
            s.append(" ");
            s.append(cell);
            let pad = if w > l { w - l } else { 0 };
            let spaces = repeat_char(' ', pad);
            s.append(spaces.as_str());
            s.append(" |");
            k = k + 1;
        }
        s.append("\n");
        s
    }

    /// A Markdown table: the first row as header, a rule, then the other
    /// rows, each cell padded to its column's width; nothing for an empty
    /// table.
    pub fn render_table(&self, table: &TableStructure) -> (r: String)
        requires
            table.wf(),
        ensures
            table.rows == 0 || table.cols == 0 ==> r@.len() == 0,
            table.rows > 0 && table.cols > 0 ==> exists|widths: Seq<usize>|
                widths.len() == table.cols && (forall|c: int| 0 <= c < table.cols ==> #[trigger] widths[c] == column_width(
                    table.cells@,
                    c,
                    table.rows as int,
                )) && r@ == table_rows_text(table.cells@, widths),
    {
        if table.rows == 0 || table.cols == 0 {
            return String::new();
        }
        let widths = Self::column_widths(table);
        let mut s = Self::render_row(&table.cells[0], &widths);
        let mut rule = String::from_str("|");
        let mut k: usize = 0;
        while k < widths.len()
            invariant
                k <= widths@.len(),
                rule@ == rule_row(widths@, k as int),
            decreases widths.len() - k,
        {
            rule.append(" ");
            let dashes = repeat_char('-', widths[k]);
            rule.append(dashes.as_str());
            rule.append(" |");
            k = k + 1;
        }
        s.append(rule.as_str());
        s.append("\n");
        let mut r: usize = 1;
        while r < table.rows
            invariant
                table.wf(),
                1 <= r <= table.rows,
                table.rows > 0,
                s@ == body_rows(table.cells@, widths@, r as int),
            decreases table.rows - r,
        {
            let line = Self::render_row(&table.cells[r], &widths);
            s.append(line.as_str());
            r = r + 1;
        }
        s.append("\n");
        assert(s@ == table_rows_text(table.cells@, widths@));
        s
    }
}

/// Header row, rule and the rows `1..k`.
pub open spec fn body_rows(cells: Seq<Vec<String>>, widths: Seq<usize>, k: int) -> Seq<char>
    decreases k,
{
    if k <= 1 {
        table_row(cells[0]@, widths, cells[0]@.len() as int) + "\n"@ + rule_row(widths, widths.len() as int) + "\n"@
    } else {
        body_rows(cells, widths, k - 1) + table_row(cells[k - 1]@, widths, cells[k - 1]@.len() as int) + "\n"@
    }
}

pub open spec fn table_rows_text(cells: Seq<Vec<String>>, widths: Seq<usize>) -> Seq<char> {
    body_rows(cells, widths, cells.len() as int) + "\n"@
}

/// The kind of a detected page element.
#[derive(Debug, Clone, Copy, PartialEq, Eq, Structural)]
pub enum ElementType {
    Heading(u8),
    Text,
    Figure,
    Table,
    ListItem,
    Code,
    Quote,
    Caption,
}

/// Classifies text blocks.
pub struct ElementDetector;

pub open spec fn list_markers() -> Seq<Seq<char>> {
    seq![
        "• "@, "・"@, "- "@, "– "@, "— "@, "* "@, "1. "@, "2. "@, "3. "@, "4. "@, "5. "@, "a) "@, "b) "@, "c) "@,
        "(1)"@, "(2)"@, "(3)"@, "①"@, "②"@, "③"@, "④"@, "⑤"@,
    ]
}

impl ElementDetector {
    /// The trimmed text begins with a bullet, a dash, a number or a letter
    /// marker.
    pub fn is_list_item(text: &str) -> (r: bool)
        ensures
            r == exists|i: int| 0 <= i < list_markers().len() && starts_with_seq(trim_of(text@), #[trigger] list_markers()[i]),
    {
        let markers: [&str; 22] = [
            "• ", "・", "- ", "– ", "— ", "* ", "1. ", "2. ", "3. ", "4. ", "5. ", "a) ", "b) ", "c) ", "(1)",
            "(2)", "(3)", "①", "②", "③", "④", "⑤",
        ];
        assert(markers@.map_values(|m: &str| m@) =~= list_markers());
        let t = trimmed(text);
        let mut i: usize = 0;
        while i < 22
            invariant
                i <= 22,
                markers@.map_values(|m: &str| m@) == list_markers(),
                t@ == trim_of(text@),
                forall|k: int| 0 <= k < i ==> !starts_with_seq(t@, #[trigger] list_markers()[k]),
            decreases 22 - i,
        {
            if starts_with(t, markers[i]) {
                assert(list_markers()[i as int] == markers@[i as int]@);
                return true;
            }
            assert(list_markers()[i as int] == markers@[i as int]@);
            i = i + 1;
        }
        false
    }
}

} // verus!
