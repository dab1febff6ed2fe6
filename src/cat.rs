use vstd::prelude::*;

use crate::text::{chars_of, decimal, pad_left, push_padded_decimal, string_of};

verus! {

/// Width of the field in which a line number is right-justified.
pub const NUMBER_WIDTH: usize = 6;

/// Options of the line printer.
#[derive(Clone, Debug)]
pub struct Config {
    pub files: Vec<String>,
    pub number_lines: bool,
    pub number_nonblank_lines: bool,
    pub show_ends: bool,
    pub squeeze_blank: bool,
}

/// What the line printer remembers from one line to the next of a file.
#[derive(Clone, Copy, Debug, PartialEq, Eq, Structural)]
pub struct CatState {
    /// The number given to the last non-blank line.
    pub last_num: usize,
    /// Whether the last line printed was blank.
    pub previous_blank: bool,
}

/// The marker written at the end of each line.
pub open spec fn end_marker(show_ends: bool) -> Seq<char> {
    if show_ends {
        seq!['$']
    } else {
        Seq::empty()
    }
}

/// A line number right-justified, a tab, the line and the end marker.
pub open spec fn numbered(n: nat, line: Seq<char>, show_ends: bool) -> Seq<char> {
    pad_left(decimal(n), NUMBER_WIDTH as nat) + seq!['\t'] + line + end_marker(show_ends)
}

/// The line printer's handling of the line `line` at index `index` of its file: the
/// next state, and the text printed for it (without the newline), if any.
pub open spec fn cat_step(
    number_lines: bool,
    number_nonblank: bool,
    show_ends: bool,
    squeeze_blank: bool,
    state: CatState,
    index: nat,
    line: Seq<char>,
) -> (CatState, Option<Seq<char>>) {
    let blank = line.len() == 0;
    if squeeze_blank && blank && state.previous_blank {
        (state, None)
    } else if number_lines {
        (CatState { previous_blank: blank, ..state }, Some(numbered(index + 1, line, show_ends)))
    } else if number_nonblank {
        if !blank {
            let n = (state.last_num + 1) as usize;
            (
                CatState { last_num: n, previous_blank: blank },
                Some(numbered(n as nat, line, show_ends)),
            )
        } else {
            (CatState { previous_blank: blank, ..state }, Some(end_marker(show_ends)))
        }
    } else {
        (CatState { previous_blank: blank, ..state }, Some(line + end_marker(show_ends)))
    }
}

/// The state at the start of a file.
pub fn start_state() -> (r: CatState)
    ensures
        r == (CatState { last_num: 0, previous_blank: false }),
{
    CatState { last_num: 0, previous_blank: false }
}

fn push_all(out: &mut Vec<char>, s: &Vec<char>)
    ensures
        final(out)@ == old(out)@ + s@,
{
    let m = s.len();
    let mut k: usize = 0;
    while k < m
        invariant
            m == s@.len(),
            k <= m,
            out@ == old(out)@ + s@.take(k as int),
        decreases m - k,
    {
        out.push(s[k]);
        k = k + 1;
        assert(out@ =~= old(out)@ + s@.take(k as int));
    }
    assert(s@.take(m as int) =~= s@);
}

fn numbered_line(n: usize, line: &Vec<char>, show_ends: bool) -> (r: String)
    ensures
        r@ == numbered(n as nat, line@, show_ends),
{
    let mut out: Vec<char> = Vec::new();
    push_padded_decimal(n, NUMBER_WIDTH, &mut out);
    out.push('\t');
    push_all(&mut out, line);
    if show_ends {
        out.push('$');
    }
    assert(out@ =~= numbered(n as nat, line@, show_ends));
    string_of(&out)
}

/// Handles the line `line` at index `index` of its file under `config`: updates `state`
/// and returns the text to print for it (without the newline), if any.
pub fn cat_line(config: &Config, state: &mut CatState, index: usize, line: &str) -> (r: Option<
    String,
>)
    requires
        index < usize::MAX,
        old(state).last_num < usize::MAX,
    ensures
        ({
            let (s, out) = cat_step(
                config.number_lines,
                config.number_nonblank_lines,
                config.show_ends,
                config.squeeze_blank,
                *old(state),
                index as nat,
                line@,
            );
            &&& *final(state) == s
            &&& r is Some == out is Some
            &&& r is Some ==> r->0@ == out->0
        }),
{
    let cs = chars_of(line);
    let blank = cs.len() == 0;
    if config.squeeze_blank && blank && state.previous_blank {
        return None;
    }
    state.previous_blank = blank;
    let mut end: Vec<char> = Vec::new();
    if config.show_ends {
        end.push('$');
    }
    assert(end@ =~= end_marker(config.show_ends));
    if config.number_lines {
        Some(numbered_line(index + 1, &cs, config.show_ends))
    } else if config.number_nonblank_lines {
        if !blank {
            state.last_num = state.last_num + 1;
            Some(numbered_line(state.last_num, &cs, config.show_ends))
        } else {
            Some(string_of(&end))
        }
    } else {
        let mut out = cs;
        push_all(&mut out, &end);
        Some(string_of(&out))
    }
}

} // verus!
