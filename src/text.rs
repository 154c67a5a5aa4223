use vstd::prelude::*;
use vstd::string::*;

verus! {

/// Relies on `String::push`: appends one character.
#[verifier::external_body]
pub(crate) fn push_char(s: &mut String, c: char)
    ensures
        final(s)@ == old(s)@.push(c),
{
    s.push(c);
}

/// `s` ends with `suffix`.
pub open spec fn ends_with(s: Seq<char>, suffix: Seq<char>) -> bool {
    suffix.len() <= s.len() && s.subrange(s.len() - suffix.len(), s.len() as int) == suffix
}

/// Relies on `str::strip_suffix`: it gives the part before `suffix` exactly
/// when `s` ends with `suffix`.
#[verifier::external_body]
fn strip_suffix_of<'a>(s: &'a str, suffix: &str) -> (r: Option<&'a str>)
    ensures
        match r {
            Some(rest) => s@ == rest@ + suffix@,
            None => !ends_with(s@, suffix@),
        },
{
    s.strip_suffix(suffix)
}

/// Removes `suffix` from the end of `s` once, if `s` ends with it.
pub fn remove_suffix(s: String, suffix: &str) -> (r: String)
    ensures
        ends_with(s@, suffix@) ==> r@ == s@.subrange(0, s@.len() - suffix@.len()),
        !ends_with(s@, suffix@) ==> r@ == s@,
{
    match strip_suffix_of(s.as_str(), suffix) {
        Some(rest) => {
            assert(rest@ =~= s@.subrange(0, s@.len() - suffix@.len()));
            assert(s@.subrange(s@.len() - suffix@.len(), s@.len() as int) =~= suffix@);
            rest.to_owned()
        },
        None => s,
    }
}

/// `c` has the Unicode `White_Space` property.
pub open spec fn is_white_space(c: char) -> bool {
    let u = c as u32;
    (0x9 <= u <= 0xD) || u == 0x20 || u == 0x85 || u == 0xA0 || u == 0x1680 || (0x2000 <= u
        <= 0x200A) || u == 0x2028 || u == 0x2029 || u == 0x202F || u == 0x205F || u == 0x3000
}

/// Whether `c` has the Unicode `White_Space` property.
pub fn white_space(c: char) -> (r: bool)
    ensures
        r == is_white_space(c),
{
    let u = c as u32;
    (0x9 <= u && u <= 0xD) || u == 0x20 || u == 0x85 || u == 0xA0 || u == 0x1680 || (0x2000 <= u
        && u <= 0x200A) || u == 0x2028 || u == 0x2029 || u == 0x202F || u == 0x205F || u == 0x3000
}

/// `c` separates two cells of a table row: a bar or white space.
pub open spec fn is_cell_separator(c: char) -> bool {
    c == '|' || is_white_space(c)
}

/// `line` with `word` added as its last cell, unless `word` is empty.
pub open spec fn end_cell(line: Seq<Seq<char>>, word: Seq<char>) -> Seq<Seq<char>> {
    if word.len() > 0 {
        line.push(word)
    } else {
        line
    }
}

/// `rows` with `line` added as its last row, unless `line` has no cell.
pub open spec fn end_row(
    rows: Seq<Seq<Seq<char>>>,
    line: Seq<Seq<char>>,
) -> Seq<Seq<Seq<char>>> {
    if line.len() > 0 {
        rows.push(line)
    } else {
        rows
    }
}

/// The state of reading a table after the first `n` characters of `text`:
/// the finished rows, the cells of the current row, and the current cell.
pub open spec fn scan_table(text: Seq<char>, n: nat) -> (
    Seq<Seq<Seq<char>>>,
    Seq<Seq<char>>,
    Seq<char>,
)
    decreases n,
{
    if n == 0 || n > text.len() {
        (Seq::empty(), Seq::empty(), Seq::empty())
    } else {
        let (rows, line, word) = scan_table(text, (n - 1) as nat);
        let c = text[n - 1];
        if c == '\n' {
            (end_row(rows, end_cell(line, word)), Seq::empty(), Seq::empty())
        } else if is_cell_separator(c) {
            (rows, end_cell(line, word), Seq::empty())
        } else {
            (rows, line, word.push(c))
        }
    }
}

/// The cells of a table written one row per line, such as
/// `| 1 | 2 |`: within a line cells are separated by bars and white space;
/// lines with no cell are left out.
pub open spec fn table_cells_of(text: Seq<char>) -> Seq<Seq<Seq<char>>> {
    let (rows, line, word) = scan_table(text, text.len());
    end_row(rows, end_cell(line, word))
}

/// The texts of `cells`.
pub open spec fn cells_view(cells: Seq<String>) -> Seq<Seq<char>> {
    cells.map_values(|w: String| w@)
}

/// The texts of the cells of `rows`.
pub open spec fn rows_view(rows: Seq<Vec<String>>) -> Seq<Seq<Seq<char>>> {
    rows.map_values(|l: Vec<String>| cells_view(l@))
}

fn push_cell(line: &mut Vec<String>, word: String)
    ensures
        cells_view(final(line)@) == end_cell(cells_view(old(line)@), word@),
{
    if word.unicode_len() > 0 {
        line.push(word);
        assert(cells_view(final(line)@) =~= end_cell(cells_view(old(line)@), word@));
    }
}

fn push_row(rows: &mut Vec<Vec<String>>, line: Vec<String>)
    ensures
        rows_view(final(rows)@) == end_row(rows_view(old(rows)@), cells_view(line@)),
{
    if line.len() > 0 {
        rows.push(line);
        assert(rows_view(final(rows)@) =~= end_row(rows_view(old(rows)@), cells_view(line@)));
    }
}

/// The cells of a table written one row per line, such as
/// `| 1 | 2 |`; see `table_cells_of`.
pub fn table_cells(text: &str) -> (r: Vec<Vec<String>>)
    ensures
        rows_view(r@) == table_cells_of(text@),
{
    let n = text.unicode_len();
    let mut rows: Vec<Vec<String>> = Vec::new();
    let mut line: Vec<String> = Vec::new();
    let mut word = String::new();
    let mut i: usize = 0;
    while i < n
        invariant
            n == text@.len(),
            i <= n,
            scan_table(text@, i as nat) == (rows_view(rows@), cells_view(line@), word@),
        decreases n - i,
    {
        let c = text.get_char(i);
        if c == '\n' {
            push_cell(&mut line, word);
            push_row(&mut rows, line);
            line = Vec::new();
            word = String::new();
            assert(cells_view(line@) =~= Seq::empty());
        } else if c == '|' || white_space(c) {
            push_cell(&mut line, word);
            word = String::new();
        } else {
            push_char(&mut word, c);
        }
        i = i + 1;
    }
    push_cell(&mut line, word);
    push_row(&mut rows, line);
    rows
}

} // verus!
