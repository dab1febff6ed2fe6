use vstd::prelude::*;

use crate::text::{
    chars_of, decimal, fields, is_numeral, join_from, join_words, numeral_digits, digits_value,
    pad_left, parse_decimal, push_padded_decimal, string_of, strip_terminator, words_of,
};

verus! {

/// Width of the field in which a run's count is right-justified.
pub const COUNT_WIDTH: usize = 4;

/// Which finalized runs are reported.
#[derive(Clone, Copy, Debug, PartialEq, Eq, Structural)]
pub enum Mode {
    /// Every run.
    All,
    /// Only runs of two or more lines.
    RepeatedOnly,
    /// Only runs of a single line.
    UniqueOnly,
}

/// Options of one invocation of the line-run reduction.
#[derive(Clone, Debug)]
pub struct Config {
    pub in_file: String,
    pub out_file: Option<String>,
    pub skip_fields: usize,
    pub show_count: bool,
    pub mode: Mode,
}

/// What can be wrong with the options.
#[derive(Clone, Debug, PartialEq, Eq)]
pub enum ArgError {
    /// Both "repeated only" and "unique only" were asked for.
    ConflictingModes,
    /// The number of fields to skip is not a non-negative integer.
    InvalidSkipFields(String),
}

/// A maximal block of adjacent lines with equal keys.
#[derive(Clone, Debug)]
pub struct Run {
    /// The comparison key shared by the lines of the run.
    pub key: String,
    /// The first line of the run, terminator included.
    pub line: String,
    /// How many lines the run holds.
    pub count: usize,
}

/// The mathematical content of a `Run`.
pub struct RunModel {
    pub key: Seq<char>,
    pub line: Seq<char>,
    pub count: nat,
}

impl View for Run {
    type V = RunModel;

    open spec fn view(&self) -> RunModel {
        RunModel { key: self.key@, line: self.line@, count: self.count as nat }
    }
}

/// The comparison key of `line` when the first `skip` fields are ignored.
pub open spec fn key_spec(line: Seq<char>, skip: nat) -> Seq<char> {
    let body = strip_terminator(line);
    if skip == 0 {
        body
    } else {
        let fs = fields(body);
        if skip >= fs.len() {
            Seq::empty()
        } else {
            join_words(fs.skip(skip as int))
        }
    }
}

/// Whether a run of `count` lines is reported under `mode`.
pub open spec fn passes_spec(mode: Mode, count: nat) -> bool {
    match mode {
        Mode::All => true,
        Mode::RepeatedOnly => count >= 2,
        Mode::UniqueOnly => count == 1,
    }
}

/// The text written for `run`: the representative line, after the right-justified count
/// and a space when counts are shown.
pub open spec fn record_spec(run: RunModel, show_count: bool) -> Seq<char> {
    if show_count {
        pad_left(decimal(run.count), COUNT_WIDTH as nat) + seq![' '] + run.line
    } else {
        run.line
    }
}

/// One transition of the run accumulator on a line `line` with key `key`:
/// the new open run, and the run flushed by the transition, if any.
pub open spec fn step(open: Option<RunModel>, key: Seq<char>, line: Seq<char>) -> (
    Option<RunModel>,
    Option<RunModel>,
) {
    match open {
        None => (Some(RunModel { key, line, count: 1 }), None),
        Some(r) => if r.key == key {
            (Some(RunModel { key: r.key, line: r.line, count: r.count + 1 }), None)
        } else {
            (Some(RunModel { key, line, count: 1 }), Some(r))
        },
    }
}

/// The runs of a sequence of (key, line) pairs, in order.
pub open spec fn runs_of(items: Seq<(Seq<char>, Seq<char>)>) -> Seq<RunModel>
    decreases items.len(),
{
    if items.len() == 0 {
        Seq::empty()
    } else {
        let prev = runs_of(items.drop_last());
        let (k, l) = items.last();
        if prev.len() > 0 && prev.last().key == k {
            prev.update(
                prev.len() - 1,
                RunModel { key: k, line: prev.last().line, count: prev.last().count + 1 },
            )
        } else {
            prev.push(RunModel { key: k, line: l, count: 1 })
        }
    }
}

/// Each line of `lines` paired with its key.
pub open spec fn keyed(lines: Seq<Seq<char>>, skip: nat) -> Seq<(Seq<char>, Seq<char>)> {
    lines.map_values(|l: Seq<char>| (key_spec(l, skip), l))
}

/// The records written for `runs` under `mode`, in order.
pub open spec fn records_of(runs: Seq<RunModel>, mode: Mode, show_count: bool) -> Seq<
    Seq<char>,
>
    decreases runs.len(),
{
    if runs.len() == 0 {
        Seq::empty()
    } else {
        let prev = records_of(runs.drop_last(), mode, show_count);
        if passes_spec(mode, runs.last().count) {
            prev.push(record_spec(runs.last(), show_count))
        } else {
            prev
        }
    }
}

/// The contents of each string of `v`.
pub open spec fn texts(v: Seq<String>) -> Seq<Seq<char>> {
    v.map_values(|s: String| s@)
}

/// The closed runs followed by the open one, if any.
pub open spec fn with_open(closed: Seq<RunModel>, open: Option<RunModel>) -> Seq<RunModel> {
    match open {
        Some(r) => closed.push(r),
        None => closed,
    }
}

/// The model of an optional run.
pub open spec fn opt_model(r: Option<Run>) -> Option<RunModel> {
    match r {
        Some(x) => Some(x@),
        None => None,
    }
}

/// The comparison key of `line`: its text without the terminator when `skip_fields` is 0,
/// else its fields after the first `skip_fields`, joined by single spaces.
pub fn key_of(line: &str, skip_fields: usize) -> (r: String)
    ensures
        r@ == key_spec(line@, skip_fields as nat),
{
    let cs = chars_of(line);
    let n = cs.len();
    let mut end = n;
    if n >= 2 && cs[n - 2] == '\r' && cs[n - 1] == '\n' {
        end = n - 2;
    } else if n >= 1 && cs[n - 1] == '\n' {
        end = n - 1;
    }
    let mut body: Vec<char> = Vec::new();
    let mut i: usize = 0;
    while i < end
        invariant
            end <= n,
            n == cs@.len(),
            i <= end,
            body@ == cs@.take(i as int),
        decreases end - i,
    {
        body.push(cs[i]);
        i = i + 1;
        assert(body@ =~= cs@.take(i as int));
    }
    assert(body@ =~= strip_terminator(line@));
    if skip_fields == 0 {
        return string_of(&body);
    }
    let ws = words_of(&body);
    if skip_fields >= ws.len() {
        let empty: Vec<char> = Vec::new();
        assert(empty@ =~= Seq::<char>::empty());
        return string_of(&empty);
    }
    let joined = join_from(&ws, skip_fields);
    string_of(&joined)
}

/// Whether a run of `count` lines is reported under `mode`.
pub fn passes(mode: Mode, count: usize) -> (r: bool)
    ensures
        r == passes_spec(mode, count as nat),
{
    match mode {
        Mode::All => true,
        Mode::RepeatedOnly => count >= 2,
        Mode::UniqueOnly => count == 1,
    }
}

/// The text written for `run`.
pub fn format_record(run: &Run, show_count: bool) -> (r: String)
    ensures
        r@ == record_spec(run@, show_count),
{
    if show_count {
        let mut out: Vec<char> = Vec::new();
        push_padded_decimal(run.count, COUNT_WIDTH, &mut out);
        out.push(' ');
        let line = chars_of(run.line.as_str());
        let m = line.len();
        let ghost mid = out@;
        let mut k: usize = 0;
        while k < m
            invariant
                m == line@.len(),
                k <= m,
                out@ == mid + line@.take(k as int),
            decreases m - k,
        {
            out.push(line[k]);
            k = k + 1;
            assert(out@ =~= mid + line@.take(k as int));
        }
        assert(line@.take(m as int) =~= line@);
        string_of(&out)
    } else {
        run.line.clone()
    }
}

/// The state machine that groups adjacent lines with equal keys into runs.
pub struct RunAccumulator {
    current: Option<Run>,
}

impl View for RunAccumulator {
    type V = Option<RunModel>;

    closed spec fn view(&self) -> Option<RunModel> {
        opt_model(self.current)
    }
}

impl RunAccumulator {
    /// An accumulator with no open run.
    pub fn new() -> (r: RunAccumulator)
        ensures
            r@ is None,
    {
        RunAccumulator { current: None }
    }

    /// The number of lines in the open run, 0 when none is open.
    pub fn open_count(&self) -> (r: usize)
        ensures
            r == (match self@ {
                Some(run) => run.count,
                None => 0,
            }),
    {
        match &self.current {
            Some(run) => run.count,
            None => 0,
        }
    }

    /// Feeds one line with its key; returns the run that the line closes, if any.
    pub fn push(&mut self, key: String, line: String) -> (r: Option<Run>)
        requires
            old(self)@ is Some ==> old(self)@->0.count < usize::MAX,
        ensures
            final(self)@ == step(old(self)@, key@, line@).0,
            opt_model(r) == step(old(self)@, key@, line@).1,
    {
        let cur = self.current.take();
        match cur {
            None => {
                self.current = Some(Run { key, line, count: 1 });
                None
            },
            Some(run) => {
                if run.key == key {
                    self.current = Some(Run { key: run.key, line: run.line, count: run.count + 1 });
                    None
                } else {
                    self.current = Some(Run { key, line, count: 1 });
                    Some(run)
                }
            },
        }
    }

    /// Signals the end of the input; returns the open run, if any, and leaves none open.
    pub fn finish(&mut self) -> (r: Option<Run>)
        ensures
            final(self)@ is None,
            opt_model(r) == old(self)@,
    {
        self.current.take()
    }
}


/// The model of each run of `v`.
pub open spec fn models(v: Seq<Run>) -> Seq<RunModel> {
    v.map_values(|r: Run| r@)
}

proof fn lemma_step_extends(
    items: Seq<(Seq<char>, Seq<char>)>,
    closed: Seq<RunModel>,
    open: Option<RunModel>,
    key: Seq<char>,
    line: Seq<char>,
)
    requires
        with_open(closed, open) == runs_of(items),
        open is None <==> items.len() == 0,
    ensures
        with_open(with_open(closed, step(open, key, line).1), step(open, key, line).0)
            == runs_of(items.push((key, line))),
{
    let all = items.push((key, line));
    assert(all.drop_last() =~= items);
    assert(all.last() == (key, line));
    match open {
        None => {
            assert(closed.push(RunModel { key, line, count: 1 }) =~= runs_of(all));
        },
        Some(r) => {
            let prev = closed.push(r);
            assert(prev.last() == r);
            if r.key == key {
                let r2 = RunModel { key: r.key, line: r.line, count: r.count + 1 };
                assert(closed.push(r2) =~= prev.update(prev.len() - 1, r2));
            }
        },
    }
}

/// The runs of `lines`, keyed with `skip_fields` fields skipped, in input order.
pub fn collapse(lines: &Vec<String>, skip_fields: usize) -> (r: Vec<Run>)
    ensures
        models(r@) == runs_of(keyed(texts(lines@), skip_fields as nat)),
{
    let ghost items = keyed(texts(lines@), skip_fields as nat);
    let mut out: Vec<Run> = Vec::new();
    let mut acc = RunAccumulator::new();
    let n = lines.len();
    let mut i: usize = 0;
    assert(items.take(0) =~= Seq::<(Seq<char>, Seq<char>)>::empty());
    assert(models(out@) =~= Seq::<RunModel>::empty());
    while i < n
        invariant
            n == lines@.len(),
            i <= n,
            items == keyed(texts(lines@), skip_fields as nat),
            with_open(models(out@), acc@) == runs_of(items.take(i as int)),
            acc@ is None <==> i == 0,
            acc@ is Some ==> acc@->0.count <= i,
        decreases n - i,
    {
        let line = &lines[i];
        let key = key_of(line.as_str(), skip_fields);
        let ghost before = models(out@);
        let ghost open = acc@;
        assert(items[i as int] == (key@, line@));
        assert(items.take(i + 1) =~= items.take(i as int).push((key@, line@)));
        proof {
            lemma_step_extends(items.take(i as int), before, open, key@, line@);
        }
        let flushed = acc.push(key, line.clone());
        match flushed {
            Some(run) => {
                out.push(run);
                assert(models(out@) =~= with_open(before, step(open, key@, line@).1));
            },
            None => {},
        }
        i = i + 1;
    }
    let ghost before = models(out@);
    let last = acc.finish();
    match last {
        Some(run) => {
            out.push(run);
            assert(models(out@) =~= before.push(run@));
        },
        None => {},
    }
    assert(items.take(n as int) =~= items);
    out
}


/// The records reported for `lines` under `config`, in input order: one per run that
/// the mode lets through.
pub fn uniq_lines(lines: &Vec<String>, config: &Config) -> (r: Vec<String>)
    ensures
        texts(r@) == records_of(
            runs_of(keyed(texts(lines@), config.skip_fields as nat)),
            config.mode,
            config.show_count,
        ),
{
    let runs = collapse(lines, config.skip_fields);
    let mut out: Vec<String> = Vec::new();
    let n = runs.len();
    let mut j: usize = 0;
    assert(models(runs@).take(0) =~= Seq::<RunModel>::empty());
    assert(texts(out@) =~= Seq::<Seq<char>>::empty());
    while j < n
        invariant
            n == runs@.len(),
            j <= n,
            texts(out@) == records_of(models(runs@).take(j as int), config.mode, config.show_count),
        decreases n - j,
    {
        let ghost before = texts(out@);
        let ghost upto = models(runs@).take(j + 1);
        assert(upto.drop_last() =~= models(runs@).take(j as int));
        assert(upto.last() == runs@[j as int]@);
        if passes(config.mode, runs[j].count) {
            let rec = format_record(&runs[j], config.show_count);
            out.push(rec);
            assert(texts(out@) =~= before.push(record_spec(runs@[j as int]@, config.show_count)));
        }
        j = j + 1;
    }
    assert(models(runs@).take(n as int) =~= models(runs@));
    out
}

/// The reporting mode for the "repeated only" and "unique only" flags.
pub fn mode_from_flags(repeated: bool, unique: bool) -> (r: Result<Mode, ArgError>)
    ensures
        r == (if repeated && unique {
            Err(ArgError::ConflictingModes)
        } else if repeated {
            Ok(Mode::RepeatedOnly)
        } else if unique {
            Ok(Mode::UniqueOnly)
        } else {
            Ok(Mode::All)
        }),
{
    if repeated && unique {
        Err(ArgError::ConflictingModes)
    } else if repeated {
        Ok(Mode::RepeatedOnly)
    } else if unique {
        Ok(Mode::UniqueOnly)
    } else {
        Ok(Mode::All)
    }
}

/// Reads the number of fields to skip: a non-negative decimal integer.
pub fn parse_skip_fields(val: &str) -> (r: Result<usize, ArgError>)
    ensures
        r is Ok <==> is_numeral(val@) && digits_value(numeral_digits(val@)) <= usize::MAX,
        r is Ok ==> r->Ok_0 == digits_value(numeral_digits(val@)),
        r is Err ==> (match r {
            Err(ArgError::InvalidSkipFields(s)) => s@ == val@,
            _ => false,
        }),
{
    match parse_decimal(val) {
        Some(n) => Ok(n),
        None => Err(ArgError::InvalidSkipFields(val.to_owned())),
    }
}

} // verus!
