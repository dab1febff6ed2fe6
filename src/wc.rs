use vstd::prelude::*;


use crate::text::{chars_of, fields, words_of};

verus! {

/// Options of the counter.
#[derive(Clone, Debug)]
pub struct Config {
    pub files: Vec<String>,
    pub lines: bool,
    pub words: bool,
    pub bytes: bool,
    pub chars: bool,
}

/// Running totals of lines, words, characters and bytes.
#[derive(Clone, Copy, Debug, PartialEq, Eq, Structural)]
pub struct Counts {
    pub lines: usize,
    pub words: usize,
    pub chars: usize,
    pub bytes: usize,
}

/// The columns shown, as (lines, words, bytes, chars): those asked for, or lines, words
/// and bytes when none was.
pub fn resolve_columns(lines: bool, words: bool, bytes: bool, chars: bool) -> (r: (
    bool,
    bool,
    bool,
    bool,
))
    ensures
        r == (if !lines && !words && !bytes && !chars {
            (true, true, true, false)
        } else {
            (lines, words, bytes, chars)
        }),
{
    if !lines && !words && !bytes && !chars {
        (true, true, true, false)
    } else {
        (lines, words, bytes, chars)
    }
}

/// The number of whitespace-separated words of `line`.
pub fn count_words(line: &str) -> (r: usize)
    ensures
        r == fields(line@).len(),
{
    let cs = chars_of(line);
    let ws = words_of(&cs);
    ws.len()
}

impl Counts {
    /// All totals zero.
    pub fn zero() -> (r: Counts)
        ensures
            r == (Counts { lines: 0, words: 0, chars: 0, bytes: 0 }),
    {
        Counts { lines: 0, words: 0, chars: 0, bytes: 0 }
    }

    /// Adds one line to the totals; returns false, leaving them unchanged, when a total
    /// would not fit in `usize`.
    pub fn add_line(&mut self, line: &str) -> (r: bool)
        ensures
            r == (old(self).lines + 1 <= usize::MAX && old(self).words + fields(line@).len()
                <= usize::MAX && old(self).chars + line@.len() <= usize::MAX && old(self).bytes
                + line.len() <= usize::MAX),
            r ==> *final(self) == (Counts {
                lines: (old(self).lines + 1) as usize,
                words: (old(self).words + fields(line@).len()) as usize,
                chars: (old(self).chars + line@.len()) as usize,
                bytes: (old(self).bytes + line.len()) as usize,
            }),
            !r ==> *final(self) == *old(self),
    {
        let w = count_words(line);
        let c = chars_of(line).len();
        let b = line.len();
        if self.lines < usize::MAX && self.words <= usize::MAX - w && self.chars <= usize::MAX - c
            && self.bytes <= usize::MAX - b {
            self.lines = self.lines + 1;
            self.words = self.words + w;
            self.chars = self.chars + c;
            self.bytes = self.bytes + b;
            true
        } else {
            false
        }
    }
}


/// The totals shown under `config`, in the order lines, words, characters, bytes.
pub open spec fn shown_spec(config: Config, counts: Counts) -> Seq<usize> {
    (if config.lines { seq![counts.lines] } else { Seq::empty() }) + (if config.words {
        seq![counts.words]
    } else {
        Seq::empty()
    }) + (if config.chars { seq![counts.chars] } else { Seq::empty() }) + (if config.bytes {
        seq![counts.bytes]
    } else {
        Seq::empty()
    })
}

/// The totals shown under `config`, in the order lines, words, characters, bytes.
pub fn shown_counts(config: &Config, counts: &Counts) -> (r: Vec<usize>)
    ensures
        r@ == shown_spec(*config, *counts),
{
    let mut out: Vec<usize> = Vec::new();
    if config.lines {
        out.push(counts.lines);
    }
    if config.words {
        out.push(counts.words);
    }
    if config.chars {
        out.push(counts.chars);
    }
    if config.bytes {
        out.push(counts.bytes);
    }
    assert(out@ =~= shown_spec(*config, *counts));
    out
}

} // verus!
