//! The text of the terminal progress bar.

use vstd::prelude::*;
use vstd::string::*;

verus! {

/// A progress bar at most `bar_width` columns wide.
pub struct ProgressBar {
    bar_width: usize,
}

/// `n` copies of `c`.
pub open spec fn repeated(c: char, n: nat) -> Seq<char> {
    Seq::new(n, |_i: int| c)
}

/// The two lines of the bar. The first holds the status text, padded with
/// spaces so that it and the size text fill `width` bytes, then the size text;
/// the second is `[`, `filled` full blocks, `blank` spaces, `]`.
pub open spec fn bar_lines(status: Seq<char>, pad: nat, size: Seq<char>, filled: nat, blank: nat) -> Seq<char> {
    status + repeated(' ', pad) + size + seq!['\n', '['] + repeated('█', filled) + repeated(' ', blank) + seq![']']
}

/// The width of a bar for a terminal `columns` wide (0 when unknown), at most
/// `max_width`.
pub open spec fn bar_width_for(columns: Option<u16>, max_width: usize) -> nat {
    match columns {
        Some(c) => if (c as usize) < max_width {
            c as nat
        } else {
            max_width as nat
        },
        None => 0,
    }
}

/// Calls `crossterm::terminal::size` and keeps the number of columns. The
/// terminal decides the result; nothing is stated of it.
#[verifier::external_body]
fn terminal_columns() -> Option<u16> {
    crossterm::terminal::size().ok().map(|(cols, _rows)| cols)
}

/// Calls `String::push`, which appends one character.
#[verifier::external_body]
fn push_char(s: &mut String, c: char)
    ensures
        final(s)@ == old(s)@.push(c),
{
    s.push(c)
}

/// Appends `n` copies of `c`.
fn push_repeated(s: &mut String, c: char, n: usize)
    ensures
        final(s)@ == old(s)@ + repeated(c, n as nat),
{
    let mut i: usize = 0;
    while i < n
        invariant
            0 <= i <= n,
            s@ == old(s)@ + repeated(c, i as nat),
        decreases n - i,
    {
        push_char(s, c);
        i = i + 1;
        assert(s@ =~= old(s)@ + repeated(c, i as nat));
    }
}

impl ProgressBar {
    /// The width of the bar.
    pub closed spec fn width(&self) -> nat {
        self.bar_width as nat
    }

    pub fn bar_width(&self) -> (r: usize)
        ensures
            r == self.width(),
    {
        self.bar_width
    }

    /// A bar as wide as the terminal, at most `max_width` (0 when the terminal
    /// size is unknown). The terminal's answer is not known here: the width is
    /// the one `with_terminal_columns` gives for some answer.
    pub fn new(max_width: usize) -> (r: Self)
        ensures
            r.width() <= max_width,
            exists|columns: Option<u16>| r.width() == #[trigger] bar_width_for(columns, max_width),
    {
        Self::with_terminal_columns(terminal_columns(), max_width)
    }

    /// A bar as wide as `columns`, at most `max_width`; 0 when `columns` is unknown.
    pub fn with_terminal_columns(columns: Option<u16>, max_width: usize) -> (r: Self)
        ensures
            r.width() == bar_width_for(columns, max_width),
    {
        let cols: usize = match columns {
            Some(c) => c as usize,
            None => 0,
        };
        Self { bar_width: if cols < max_width { cols } else { max_width } }
    }

    /// The percentage of `total_len` that `downloaded_len` is, rounded down.
    pub fn progress(downloaded_len: u64, total_len: u64) -> (r: usize)
        requires
            total_len > 0,
            downloaded_len * 100 <= u64::MAX,
            (downloaded_len * 100) as int / total_len as int <= usize::MAX,
        ensures
            r == (downloaded_len * 100) as int / total_len as int,
    {
        (downloaded_len * 100 / total_len) as usize
    }

    /// The two lines of the bar for `progress` percent, with the status text
    /// (speed, progress, elapsed time) and the size text (downloaded / total)
    /// on the first line. Widths are counted in bytes.
    pub fn update(&mut self, progress: usize, status_text: &str, size_text: &str) -> (r: String)
        requires
            status_text.spec_bytes().len() + size_text.spec_bytes().len() <= old(self).width(),
            old(self).width() >= 2,
            progress * (old(self).width() - 2) <= usize::MAX,
        ensures
            final(self).width() == old(self).width(),
            ({
                let inner = (old(self).width() - 2) as nat;
                let filled = (progress * inner / 100) as nat;
                r@ == bar_lines(
                    status_text@,
                    (old(self).width() - status_text.spec_bytes().len() - size_text.spec_bytes().len()) as nat,
                    size_text@,
                    filled,
                    if filled < inner {
                        (inner - filled) as nat
                    } else {
                        0
                    },
                )
            }),
    {
        let mut bar_buf = String::new();
        bar_buf.append(status_text);
        let pad = self.bar_width - status_text.len() - size_text.len();
        push_repeated(&mut bar_buf, ' ', pad);
        bar_buf.append(size_text);
        push_char(&mut bar_buf, '\n');
        let bar_p_width = self.bar_width - 2;
        let progress_width = progress * bar_p_width / 100;
        push_char(&mut bar_buf, '[');
        push_repeated(&mut bar_buf, '█', progress_width);
        let blank = if progress_width < bar_p_width { bar_p_width - progress_width } else { 0 };
        push_repeated(&mut bar_buf, ' ', blank);
        push_char(&mut bar_buf, ']');
        proof {
            let inner = (self.width() - 2) as nat;
            let filled = (progress * inner / 100) as nat;
            assert(bar_buf@ =~= bar_lines(
                status_text@,
                pad as nat,
                size_text@,
                filled,
                blank as nat,
            ));
        }
        bar_buf
    }
}

/// Law: the text of the bar, character by character. First the status text,
/// then `pad` spaces, then the size text; then a line break and `[`; then
/// `filled` full blocks, `blank` spaces and a closing `]`, and nothing else.
pub proof fn lemma_bar_lines_layout(status: Seq<char>, pad: nat, size: Seq<char>, filled: nat, blank: nat)
    ensures
        ({
            let t = bar_lines(status, pad, size, filled, blank);
            let first: int = (status.len() + pad + size.len()) as int;
            &&& t.len() == first + filled + blank + 3
            &&& forall|i: int| 0 <= i < status.len() ==> t[i] == status[i]
            &&& forall|i: int| status.len() <= i < status.len() + pad ==> t[i] == ' '
            &&& forall|i: int| 0 <= i < size.len() ==> t[status.len() + pad + i] == size[i]
            &&& t[first] == '\n'
            &&& t[first + 1] == '['
            &&& forall|i: int| first + 2 <= i < first + 2 + filled ==> t[i] == '█'
            &&& forall|i: int| first + 2 + filled <= i < first + 2 + filled + blank ==> t[i] == ' '
            &&& t[first + 2 + filled + blank] == ']'
        }),
{
}

/// Law: a bar is as wide as the terminal when that is narrower than `max_width`,
/// `max_width` wide otherwise, and 0 wide when the terminal's width is unknown.
pub proof fn lemma_bar_width_fits(columns: Option<u16>, max_width: usize)
    ensures
        columns is None ==> bar_width_for(columns, max_width) == 0,
        columns is Some ==> bar_width_for(columns, max_width) <= max_width,
        columns is Some && columns->0 < max_width ==> bar_width_for(columns, max_width) == columns->0,
        columns is Some && columns->0 >= max_width ==> bar_width_for(columns, max_width) == max_width,
{
}

} // verus!
