use vstd::prelude::*;

use crate::text::{fields, is_space, join_words, leading_word, strip_terminator};
use crate::uniq::{key_spec, keyed, passes_spec, runs_of, Mode, RunModel};

verus! {

/// The keys of a sequence of (key, line) pairs.
pub open spec fn keys_of(items: Seq<(Seq<char>, Seq<char>)>) -> Seq<Seq<char>> {
    items.map_values(|p: (Seq<char>, Seq<char>)| p.0)
}

/// The number of positions at which a block of equal adjacent keys starts.
pub open spec fn block_starts(keys: Seq<Seq<char>>) -> nat
    decreases keys.len(),
{
    if keys.len() == 0 {
        0
    } else {
        block_starts(keys.drop_last()) + if keys.len() == 1 || keys.last() != keys[keys.len()
            - 2] {
            1nat
        } else {
            0nat
        }
    }
}

/// The sum of the counts of `runs`.
pub open spec fn total_count(runs: Seq<RunModel>) -> nat
    decreases runs.len(),
{
    if runs.len() == 0 {
        0
    } else {
        total_count(runs.drop_last()) + runs.last().count
    }
}

/// Each run's key repeated `count` times, runs in order.
pub open spec fn expand(runs: Seq<RunModel>) -> Seq<Seq<char>>
    decreases runs.len(),
{
    if runs.len() == 0 {
        Seq::empty()
    } else {
        expand(runs.drop_last()) + Seq::new(runs.last().count, |i: int| runs.last().key)
    }
}

/// The indices of the runs of `runs` that `mode` lets through.
pub open spec fn selected(runs: Seq<RunModel>, mode: Mode) -> Set<int> {
    Set::new(|j: int| 0 <= j < runs.len() && passes_spec(mode, runs[j].count))
}

proof fn lemma_runs_facts(items: Seq<(Seq<char>, Seq<char>)>)
    ensures
        ({
            let runs = runs_of(items);
            let keys = keys_of(items);
            &&& items.len() == 0 <==> runs.len() == 0
            &&& items.len() > 0 ==> runs.last().key == items.last().0
            &&& runs.len() == block_starts(keys)
            &&& total_count(runs) == items.len()
            &&& expand(runs) == keys
            &&& forall|j: int| 0 <= j < runs.len() ==> #[trigger] runs[j].count >= 1
            &&& forall|i: int, j: int|
                0 <= i && j == i + 1 && j < runs.len() ==> #[trigger] runs[i].key
                    != #[trigger] runs[j].key
        }),
    decreases items.len(),
{
    if items.len() > 0 {
        let init = items.drop_last();
        lemma_runs_facts(init);
        let prev = runs_of(init);
        let runs = runs_of(items);
        let (k, l) = items.last();
        let keys = keys_of(items);
        assert(keys_of(init) =~= keys.drop_last());
        assert(keys.last() == k);
        if items.len() >= 2 {
            assert(init.last() == items[items.len() - 2]);
            assert(keys[keys.len() - 2] == items[items.len() - 2].0);
        }
        if prev.len() > 0 && prev.last().key == k {
            let c = prev.last().count;
            assert(runs.drop_last() =~= prev.drop_last());
            assert(Seq::new(c + 1, |i: int| k) =~= Seq::new(c, |i: int| k).push(k));
            assert(expand(runs) =~= expand(prev).push(k));
            assert(keys =~= keys_of(init).push(k));
        } else {
            assert(runs.drop_last() =~= prev);
            assert(Seq::new(1, |i: int| k) =~= seq![k]);
            assert(expand(runs) =~= expand(prev).push(k));
            assert(keys =~= keys_of(init).push(k));
            assert forall|i: int, j: int|
                0 <= i && j == i + 1 && j < runs.len() implies #[trigger] runs[i].key
                != #[trigger] runs[j].key by {
                if j < runs.len() - 1 {
                    assert(runs[i] == prev[i] && runs[j] == prev[j]);
                }
            }
        }
    } else {
        assert(keys_of(items) =~= Seq::<Seq<char>>::empty());
    }
}

/// The runs of an input are as many as the blocks of equal adjacent keys in it, and
/// their counts add up to the number of input lines.
pub proof fn lemma_run_count(items: Seq<(Seq<char>, Seq<char>)>)
    ensures
        runs_of(items).len() == block_starts(keys_of(items)),
        total_count(runs_of(items)) == items.len(),
{
    lemma_runs_facts(items);
}

/// Each run's key repeated `count` times, runs in order, gives back the input's keys;
/// every run holds at least one line, and adjacent runs have distinct keys, so no run
/// could be merged with its neighbour.
pub proof fn lemma_runs_partition(items: Seq<(Seq<char>, Seq<char>)>)
    ensures
        expand(runs_of(items)) == keys_of(items),
        forall|j: int| 0 <= j < runs_of(items).len() ==> #[trigger] runs_of(items)[j].count >= 1,
        forall|j: int|
            0 < j < runs_of(items).len() ==> #[trigger] runs_of(items)[j].key != runs_of(
                items,
            )[j - 1].key,
{
    lemma_runs_facts(items);
    let runs = runs_of(items);
    assert forall|j: int| 0 < j < runs.len() implies #[trigger] runs[j].key != runs[j - 1].key by {
        assert(runs[j - 1].key != runs[j].key);
    }
}

/// The runs reported in "repeated only" mode and those reported in "unique only" mode
/// are disjoint, and together they are the runs reported in "all" mode.
pub proof fn lemma_modes_split(items: Seq<(Seq<char>, Seq<char>)>)
    ensures
        selected(runs_of(items), Mode::RepeatedOnly).disjoint(
            selected(runs_of(items), Mode::UniqueOnly),
        ),
        selected(runs_of(items), Mode::RepeatedOnly) + selected(runs_of(items), Mode::UniqueOnly)
            == selected(runs_of(items), Mode::All),
{
    lemma_runs_facts(items);
    let runs = runs_of(items);
    assert(selected(runs, Mode::RepeatedOnly) + selected(runs, Mode::UniqueOnly) =~= selected(
        runs,
        Mode::All,
    ));
}


/// Whether `w` is a possible field: non-empty, without whitespace.
pub open spec fn is_word(w: Seq<char>) -> bool {
    w.len() > 0 && forall|i: int| 0 <= i < w.len() ==> !is_space(#[trigger] w[i])
}

proof fn lemma_leading_word_props(s: Seq<char>)
    ensures
        leading_word(s).len() <= s.len(),
        forall|i: int| 0 <= i < leading_word(s).len() ==> !is_space(#[trigger] leading_word(s)[i]),
        s.len() > 0 && !is_space(s[0]) ==> leading_word(s).len() > 0,
    decreases s.len(),
{
    if s.len() > 0 && !is_space(s[0]) {
        lemma_leading_word_props(s.drop_first());
        let w = leading_word(s);
        let t = leading_word(s.drop_first());
        assert forall|i: int| 0 <= i < w.len() implies !is_space(#[trigger] w[i]) by {
            if i > 0 {
                assert(w[i] == t[i - 1]);
            }
        }
    }
}

proof fn lemma_fields_are_words(s: Seq<char>)
    ensures
        forall|i: int| 0 <= i < fields(s).len() ==> is_word(#[trigger] fields(s)[i]),
    decreases s.len(),
{
    if s.len() > 0 {
        if is_space(s[0]) {
            lemma_fields_are_words(s.drop_first());
            assert(fields(s) == fields(s.drop_first()));
        } else {
            let w = leading_word(s);
            lemma_leading_word_props(s);
            lemma_fields_are_words(s.skip(w.len() as int));
            let fs = fields(s);
            assert(fs == seq![w] + fields(s.skip(w.len() as int)));
            assert forall|i: int| 0 <= i < fs.len() implies is_word(#[trigger] fs[i]) by {
                if i == 0 {
                    assert(fs[0] == w);
                    assert(is_word(w));
                } else {
                    assert(fs[i] == fields(s.skip(w.len() as int))[i - 1]);
                }
            }
            assert(forall|i: int| 0 <= i < fs.len() ==> is_word(#[trigger] fs[i]));
        }
    }
}

proof fn lemma_join_len(ws: Seq<Seq<char>>)
    requires
        forall|i: int| 0 <= i < ws.len() ==> is_word(#[trigger] ws[i]),
    ensures
        ws.len() > 0 ==> join_words(ws).len() > 0,
        ws.len() >= 2 ==> join_words(ws)[join_words(ws.drop_last()).len() as int] == ' ',
{
    if ws.len() == 1 {
        assert(is_word(ws[0]));
    } else if ws.len() >= 2 {
        assert(is_word(ws.last()));
    }
}

proof fn lemma_join_injective(x: Seq<Seq<char>>, y: Seq<Seq<char>>)
    requires
        forall|i: int| 0 <= i < x.len() ==> is_word(#[trigger] x[i]),
        forall|i: int| 0 <= i < y.len() ==> is_word(#[trigger] y[i]),
        join_words(x) == join_words(y),
    ensures
        x == y,
    decreases x.len() + y.len(),
{
    lemma_join_len(x);
    lemma_join_len(y);
    let s = join_words(x);
    if x.len() == 0 || y.len() == 0 {
        assert(x =~= y);
    } else if x.len() == 1 && y.len() == 1 {
        assert(x =~= y);
    } else if x.len() == 1 {
        let p = join_words(y.drop_last()).len() as int;
        assert(is_word(x[0]));
        assert(s[p] == x[0][p]);
    } else if y.len() == 1 {
        let p = join_words(x.drop_last()).len() as int;
        assert(is_word(y[0]));
        assert(s[p] == y[0][p]);
    } else {
        let u = x.last();
        let v = y.last();
        let a = join_words(x.drop_last());
        let b = join_words(y.drop_last());
        assert(is_word(u));
        assert(is_word(v));
        if u.len() < v.len() {
            let p = a.len() as int;
            assert(s[p] == ' ');
            assert(s == b + seq![' '] + v);
            assert(s[p] == v[p - b.len() - 1]);
        } else if v.len() < u.len() {
            let p = b.len() as int;
            assert(s[p] == ' ');
            assert(s == a + seq![' '] + u);
            assert(s[p] == u[p - a.len() - 1]);
        }
        assert(u =~= s.skip(s.len() - u.len()));
        assert(v =~= s.skip(s.len() - v.len()));
        assert(a =~= s.take(a.len() as int));
        assert(b =~= s.take(b.len() as int));
        lemma_join_injective(x.drop_last(), y.drop_last());
        assert(x =~= x.drop_last().push(u));
        assert(y =~= y.drop_last().push(v));
    }
}

proof fn lemma_key_coarsens(a: Seq<char>, b: Seq<char>, n: nat, m: nat)
    requires
        n <= m,
        key_spec(a, n) == key_spec(b, n),
    ensures
        key_spec(a, m) == key_spec(b, m),
{
    let fa = fields(strip_terminator(a));
    let fb = fields(strip_terminator(b));
    lemma_fields_are_words(strip_terminator(a));
    lemma_fields_are_words(strip_terminator(b));
    if m > 0 {
        if n == 0 {
            assert(fa == fb);
        } else {
            if n < fa.len() {
                assert forall|i: int| 0 <= i < fa.skip(n as int).len() implies is_word(
                    #[trigger] fa.skip(n as int)[i],
                ) by {
                    assert(fa.skip(n as int)[i] == fa[i + n]);
                }
                lemma_join_len(fa.skip(n as int));
            }
            if n < fb.len() {
                assert forall|i: int| 0 <= i < fb.skip(n as int).len() implies is_word(
                    #[trigger] fb.skip(n as int)[i],
                ) by {
                    assert(fb.skip(n as int)[i] == fb[i + n]);
                }
                lemma_join_len(fb.skip(n as int));
            }
            if n < fa.len() && n < fb.len() {
                lemma_join_injective(fa.skip(n as int), fb.skip(n as int));
                if m < fa.len() {
                    assert(fa.skip(m as int) =~= fa.skip(n as int).skip(m - n));
                    assert(fb.skip(m as int) =~= fb.skip(n as int).skip(m - n));
                }
            }
        }
    }
}

/// Skipping more fields only merges runs: wherever adjacent lines have different keys
/// with `m` fields skipped, they have different keys with `n <= m` fields skipped too,
/// and there are no more runs with `m` fields skipped than with `n`.
pub proof fn lemma_skip_coarsens(lines: Seq<Seq<char>>, n: nat, m: nat)
    requires
        n <= m,
    ensures
        forall|i: int|
            0 < i < lines.len() && key_spec(lines[i], m) != key_spec(lines[i - 1], m)
                ==> #[trigger] key_spec(lines[i], n) != key_spec(lines[i - 1], n),
        runs_of(keyed(lines, m)).len() <= runs_of(keyed(lines, n)).len(),
    decreases lines.len(),
{
    assert forall|i: int|
        0 < i < lines.len() && key_spec(lines[i], m) != key_spec(lines[i - 1], m)
            implies #[trigger] key_spec(lines[i], n) != key_spec(lines[i - 1], n) by {
        if key_spec(lines[i], n) == key_spec(lines[i - 1], n) {
            lemma_key_coarsens(lines[i], lines[i - 1], n, m);
        }
    }
    lemma_runs_facts(keyed(lines, m));
    lemma_runs_facts(keyed(lines, n));
    lemma_block_starts_monotone(lines, n, m);
}

proof fn lemma_block_starts_monotone(lines: Seq<Seq<char>>, n: nat, m: nat)
    requires
        n <= m,
    ensures
        block_starts(keys_of(keyed(lines, m))) <= block_starts(keys_of(keyed(lines, n))),
    decreases lines.len(),
{
    if lines.len() > 0 {
        let init = lines.drop_last();
        lemma_block_starts_monotone(init, n, m);
        let km = keys_of(keyed(lines, m));
        let kn = keys_of(keyed(lines, n));
        assert(km.drop_last() =~= keys_of(keyed(init, m)));
        assert(kn.drop_last() =~= keys_of(keyed(init, n)));
        if lines.len() >= 2 {
            let i = lines.len() - 1;
            assert(km[i] == key_spec(lines[i], m) && km[i - 1] == key_spec(lines[i - 1], m));
            assert(kn[i] == key_spec(lines[i], n) && kn[i - 1] == key_spec(lines[i - 1], n));
            if kn[i] == kn[i - 1] {
                lemma_key_coarsens(lines[i], lines[i - 1], n, m);
            }
        }
    }
}


/// The index of the first input line of run `j`.
pub open spec fn run_start(runs: Seq<RunModel>, j: int) -> nat {
    total_count(runs.take(j))
}

proof fn lemma_total_prefix(runs: Seq<RunModel>, j: int)
    requires
        0 <= j < runs.len(),
    ensures
        run_start(runs, j) + runs[j].count <= total_count(runs),
    decreases runs.len(),
{
    assert(runs.take(j + 1).drop_last() =~= runs.take(j));
    if j + 1 < runs.len() {
        lemma_total_prefix(runs.drop_last(), j);
        assert(runs.drop_last().take(j) =~= runs.take(j));
    } else {
        assert(runs.take(j + 1) =~= runs);
    }
}

proof fn lemma_first_line_step(items: Seq<(Seq<char>, Seq<char>)>, j: int)
    requires
        items.len() > 0,
        0 <= j < runs_of(items).len(),
        total_count(runs_of(items)) == items.len(),
        total_count(runs_of(items.drop_last())) == items.len() - 1,
        j < runs_of(items.drop_last()).len() ==> ({
            let prev = runs_of(items.drop_last());
            let st = run_start(prev, j) as int;
            st < items.len() - 1 && prev[j].line == items.drop_last()[st].1 && prev[j].key
                == items.drop_last()[st].0
        }),
    ensures
        run_start(runs_of(items), j) < items.len(),
        runs_of(items)[j].line == items[run_start(runs_of(items), j) as int].1,
        runs_of(items)[j].key == items[run_start(runs_of(items), j) as int].0,
{
    let init = items.drop_last();
    let prev = runs_of(init);
    let runs = runs_of(items);
    let k = items.last().0;
    lemma_total_prefix(runs, j);
    if j < prev.len() {
        assert(runs.take(j) =~= prev.take(j));
        let st = run_start(prev, j) as int;
        assert(init[st] == items[st]);
        if j == prev.len() - 1 && prev.last().key == k {
            assert(runs[j].line == prev[j].line);
        } else {
            assert(runs[j] == prev[j]);
        }
    } else {
        assert(runs.take(j) =~= prev);
    }
}

proof fn lemma_first_line_at(items: Seq<(Seq<char>, Seq<char>)>, j: int)
    requires
        0 <= j < runs_of(items).len(),
    ensures
        run_start(runs_of(items), j) < items.len(),
        runs_of(items)[j].line == items[run_start(runs_of(items), j) as int].1,
        runs_of(items)[j].key == items[run_start(runs_of(items), j) as int].0,
    decreases items.len(),
{
    lemma_run_count(items);
    let init = items.drop_last();
    lemma_run_count(init);
    if j < runs_of(init).len() {
        lemma_first_line_at(init, j);
    }
    lemma_first_line_step(items, j);
}

/// Whether run `j` of the runs of `items` starts at an input line that holds its
/// representative line and its key.
pub open spec fn opened_by_first_line(items: Seq<(Seq<char>, Seq<char>)>, j: int) -> bool {
    let runs = runs_of(items);
    let st = run_start(runs, j) as int;
    st < items.len() && runs[j].line == items[st].1 && runs[j].key == items[st].0
}

/// Each run's representative is the line that opened it: the input line at the run's
/// start, whose key is the run's key.
pub proof fn lemma_first_line_represents(items: Seq<(Seq<char>, Seq<char>)>)
    ensures
        forall|j: int|
            0 <= j < runs_of(items).len() ==> #[trigger] opened_by_first_line(items, j),
{
    assert forall|j: int| 0 <= j < runs_of(items).len() implies #[trigger] opened_by_first_line(
        items,
        j,
    ) by {
        lemma_first_line_at(items, j);
    }
}

} // verus!
