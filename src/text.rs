use vstd::prelude::*;

verus! {

/// Characters with the Unicode `White_Space` property.
pub open spec fn is_space(c: char) -> bool {
    ('\u{9}' <= c && c <= '\u{d}') || c == ' ' || c == '\u{85}' || c == '\u{a0}' || c
        == '\u{1680}' || ('\u{2000}' <= c && c <= '\u{200a}') || c == '\u{2028}' || c
        == '\u{2029}' || c == '\u{202f}' || c == '\u{205f}' || c == '\u{3000}'
}

/// Whether `c` is whitespace in the sense of `char::is_whitespace`.
pub fn is_space_char(c: char) -> (r: bool)
    ensures
        r == is_space(c),
{
    ('\u{9}' <= c && c <= '\u{d}') || c == ' ' || c == '\u{85}' || c == '\u{a0}' || c
        == '\u{1680}' || ('\u{2000}' <= c && c <= '\u{200a}') || c == '\u{2028}' || c
        == '\u{2029}' || c == '\u{202f}' || c == '\u{205f}' || c == '\u{3000}'
}

/// The longest prefix of `s` without whitespace.
pub open spec fn leading_word(s: Seq<char>) -> Seq<char>
    decreases s.len(),
{
    if s.len() == 0 || is_space(s[0]) {
        Seq::empty()
    } else {
        seq![s[0]] + leading_word(s.drop_first())
    }
}

/// The maximal runs of non-whitespace characters of `s`, in order.
pub open spec fn fields(s: Seq<char>) -> Seq<Seq<char>>
    decreases s.len(),
{
    if s.len() == 0 {
        Seq::empty()
    } else if is_space(s[0]) {
        fields(s.drop_first())
    } else {
        let w = leading_word(s);
        // `w` is never empty here; the test keeps termination evident.
        if 0 < w.len() <= s.len() {
            seq![w] + fields(s.skip(w.len() as int))
        } else {
            Seq::empty()
        }
    }
}

/// The words of `ws` separated by single spaces.
pub open spec fn join_words(ws: Seq<Seq<char>>) -> Seq<char>
    decreases ws.len(),
{
    if ws.len() == 0 {
        Seq::empty()
    } else if ws.len() == 1 {
        ws[0]
    } else {
        join_words(ws.drop_last()) + seq![' '] + ws.last()
    }
}

/// `s` without its line terminator (CRLF, LF, or none).
pub open spec fn strip_terminator(s: Seq<char>) -> Seq<char> {
    if s.len() >= 2 && s[s.len() - 2] == '\r' && s[s.len() - 1] == '\n' {
        s.take(s.len() - 2)
    } else if s.len() >= 1 && s[s.len() - 1] == '\n' {
        s.take(s.len() - 1)
    } else {
        s
    }
}

/// The decimal digit for `d < 10`.
pub open spec fn digit_char(d: nat) -> char {
    if d == 0 { '0' }
    else if d == 1 { '1' }
    else if d == 2 { '2' }
    else if d == 3 { '3' }
    else if d == 4 { '4' }
    else if d == 5 { '5' }
    else if d == 6 { '6' }
    else if d == 7 { '7' }
    else if d == 8 { '8' }
    else { '9' }
}

/// The decimal notation of `n`, without leading zeros.
pub open spec fn decimal(n: nat) -> Seq<char>
    decreases n,
{
    if n < 10 {
        seq![digit_char(n)]
    } else {
        decimal(n / 10).push(digit_char(n % 10))
    }
}

/// `s` right-justified in a field of at least `width` characters.
pub open spec fn pad_left(s: Seq<char>, width: nat) -> Seq<char> {
    if s.len() < width {
        Seq::new((width - s.len()) as nat, |i: int| ' ') + s
    } else {
        s
    }
}

/// The characters of `s`, in order.
pub fn chars_of(s: &str) -> (r: Vec<char>)
    ensures
        r@ == s@,
{
    let mut out: Vec<char> = Vec::new();
    for c in it: s.chars()
        invariant
            it.seq() == s@,
            out@ == it.seq().take(it.index() as int),
    {
        out.push(c);
    }
    out
}

/// Relies on `String: FromIterator<&char>`: the string holds the characters in order.
#[verifier::external_body]
pub(crate) fn string_of(v: &Vec<char>) -> (r: String)
    ensures
        r@ == v@,
{
    v.iter().collect()
}

fn digit_of(d: usize) -> (c: char)
    requires
        d < 10,
    ensures
        c == digit_char(d as nat),
{
    if d == 0 { '0' }
    else if d == 1 { '1' }
    else if d == 2 { '2' }
    else if d == 3 { '3' }
    else if d == 4 { '4' }
    else if d == 5 { '5' }
    else if d == 6 { '6' }
    else if d == 7 { '7' }
    else if d == 8 { '8' }
    else { '9' }
}

/// Appends the decimal notation of `n` to `out`.
pub fn push_decimal(n: usize, out: &mut Vec<char>)
    ensures
        final(out)@ == old(out)@ + decimal(n as nat),
    decreases n,
{
    if n >= 10 {
        push_decimal(n / 10, out);
    }
    out.push(digit_of(n % 10));
    assert(out@ =~= old(out)@ + decimal(n as nat));
}

/// Appends `n` in decimal, right-justified in `width` characters, to `out`.
pub fn push_padded_decimal(n: usize, width: usize, out: &mut Vec<char>)
    ensures
        final(out)@ == old(out)@ + pad_left(decimal(n as nat), width as nat),
{
    let mut digits: Vec<char> = Vec::new();
    push_decimal(n, &mut digits);
    assert(digits@ =~= decimal(n as nat));
    let len = digits.len();
    if len < width {
        let mut k: usize = 0;
        while k < width - len
            invariant
                k <= width - len,
                len == digits@.len(),
                len < width,
                out@ == old(out)@ + Seq::new(k as nat, |i: int| ' '),
            decreases width - len - k,
        {
            out.push(' ');
            k = k + 1;
            assert(out@ =~= old(out)@ + Seq::new(k as nat, |i: int| ' '));
        }
    }
    let ghost mid = out@;
    let mut j: usize = 0;
    while j < len
        invariant
            j <= len,
            len == digits@.len(),
            out@ == mid + digits@.take(j as int),
        decreases len - j,
    {
        out.push(digits[j]);
        j = j + 1;
        assert(out@ =~= mid + digits@.take(j as int));
    }
    assert(digits@.take(len as int) =~= digits@);
    assert(out@ =~= old(out)@ + pad_left(decimal(n as nat), width as nat));
}


proof fn lemma_leading_word(s: Seq<char>, j: int)
    requires
        0 <= j <= s.len(),
        forall|t: int| 0 <= t < j ==> !is_space(#[trigger] s[t]),
        j == s.len() || is_space(s[j]),
    ensures
        leading_word(s) == s.take(j),
    decreases j,
{
    if j == 0 {
        assert(s.take(0) =~= Seq::<char>::empty());
    } else {
        let t = s.drop_first();
        assert forall|u: int| 0 <= u < j - 1 implies !is_space(#[trigger] t[u]) by {
            assert(t[u] == s[u + 1]);
        }
        lemma_leading_word(t, j - 1);
        assert(s.take(j) =~= seq![s[0]] + t.take(j - 1));
    }
}

/// The contents of each vector of `v`.
pub open spec fn rows(v: Seq<Vec<char>>) -> Seq<Seq<char>> {
    v.map_values(|w: Vec<char>| w@)
}

/// The fields of `s`, that is its maximal runs of non-whitespace characters.
pub fn words_of(s: &Vec<char>) -> (r: Vec<Vec<char>>)
    ensures
        rows(r@) == fields(s@),
{
    let mut out: Vec<Vec<char>> = Vec::new();
    let n = s.len();
    let mut i: usize = 0;
    assert(s@.skip(0) =~= s@);
    assert(rows(out@) =~= Seq::<Seq<char>>::empty());
    assert(rows(out@) + fields(s@) =~= fields(s@));
    while i < n
        invariant
            n == s@.len(),
            i <= n,
            rows(out@) + fields(s@.skip(i as int)) == fields(s@),
        decreases n - i,
    {
        let ghost rest = s@.skip(i as int);
        if is_space_char(s[i]) {
            assert(rest.drop_first() =~= s@.skip(i + 1));
            i = i + 1;
        } else {
            let mut j: usize = i;
            let mut w: Vec<char> = Vec::new();
            while j < n && !is_space_char(s[j])
                invariant
                    i <= j <= n,
                    n == s@.len(),
                    w@ == s@.subrange(i as int, j as int),
                    forall|t: int| i <= t < j ==> !is_space(#[trigger] s@[t]),
                decreases n - j,
            {
                w.push(s[j]);
                j = j + 1;
                assert(w@ =~= s@.subrange(i as int, j as int));
            }
            proof {
                assert forall|t: int| 0 <= t < j - i implies !is_space(#[trigger] rest[t]) by {
                    assert(rest[t] == s@[i + t]);
                }
                lemma_leading_word(rest, j - i);
                assert(rest.take(j - i) =~= w@);
                assert(rest.skip(j - i) =~= s@.skip(j as int));
                assert(fields(rest) == seq![w@] + fields(s@.skip(j as int)));
            }
            let ghost before = rows(out@);
            let ghost wv = w@;
            out.push(w);
            assert(rows(out@) =~= before.push(wv));
            assert(rows(out@) + fields(s@.skip(j as int)) =~= before + fields(rest));
            assert(fields(rest) =~= seq![wv] + fields(s@.skip(j as int)));
            i = j;
        }
    }
    assert(s@.skip(n as int) =~= Seq::<char>::empty());
    assert(rows(out@) + fields(s@.skip(n as int)) =~= rows(out@));
    out
}

/// The words of `ws` from index `from` on, separated by single spaces.
pub fn join_from(ws: &Vec<Vec<char>>, from: usize) -> (r: Vec<char>)
    requires
        from <= ws@.len(),
    ensures
        r@ == join_words(rows(ws@).skip(from as int)),
{
    let mut out: Vec<char> = Vec::new();
    let n = ws.len();
    let mut i: usize = from;
    while i < n
        invariant
            n == ws@.len(),
            from <= i <= n,
            out@ == join_words(rows(ws@).subrange(from as int, i as int)),
        decreases n - i,
    {
        let ghost before = out@;
        if i > from {
            out.push(' ');
        }
        let w = &ws[i];
        let m = w.len();
        let mut k: usize = 0;
        let ghost mid = out@;
        while k < m
            invariant
                m == w@.len(),
                k <= m,
                out@ == mid + w@.take(k as int),
            decreases m - k,
        {
            out.push(w[k]);
            k = k + 1;
            assert(out@ =~= mid + w@.take(k as int));
        }
        assert(w@.take(m as int) =~= w@);
        let ghost nxt = rows(ws@).subrange(from as int, i + 1);
        assert(nxt.drop_last() =~= rows(ws@).subrange(from as int, i as int));
        assert(nxt.last() == rows(ws@)[i as int]);
        if i > from {
            assert(out@ =~= join_words(nxt.drop_last()) + seq![' '] + nxt.last());
        } else {
            assert(out@ =~= nxt[0]);
        }
        i = i + 1;
    }
    assert(rows(ws@).subrange(from as int, n as int) =~= rows(ws@).skip(from as int));
    out
}


/// Whether `c` is an ASCII decimal digit.
pub open spec fn is_digit(c: char) -> bool {
    '0' <= c && c <= '9'
}

/// The value of the decimal digits `s`.
pub open spec fn digits_value(s: Seq<char>) -> int
    decreases s.len(),
{
    if s.len() == 0 {
        0
    } else {
        digits_value(s.drop_last()) * 10 + (s.last() as int - '0' as int)
    }
}

/// The digits of an unsigned decimal numeral: `s` without an optional leading `+`.
pub open spec fn numeral_digits(s: Seq<char>) -> Seq<char> {
    if s.len() > 0 && s[0] == '+' {
        s.drop_first()
    } else {
        s
    }
}

/// Whether `s` is an unsigned decimal numeral: an optional `+`, then one or more digits.
pub open spec fn is_numeral(s: Seq<char>) -> bool {
    let d = numeral_digits(s);
    d.len() > 0 && forall|i: int| 0 <= i < d.len() ==> is_digit(#[trigger] d[i])
}

/// Reads `s` as an unsigned decimal numeral that fits in `usize`, as `usize::from_str` does.
pub fn parse_decimal(s: &str) -> (r: Option<usize>)
    ensures
        r is Some <==> is_numeral(s@) && digits_value(numeral_digits(s@)) <= usize::MAX,
        r is Some ==> r->0 == digits_value(numeral_digits(s@)),
{
    let cs = chars_of(s);
    let n = cs.len();
    let mut i: usize = 0;
    if n > 0 && cs[0] == '+' {
        i = 1;
    }
    let start = i;
    let ghost d = numeral_digits(s@);
    assert(d =~= cs@.skip(start as int));
    if start == n {
        return None;
    }
    let mut value: usize = 0;
    while i < n
        invariant
            start <= i <= n,
            n == cs@.len(),
            cs@ == s@,
            d == cs@.skip(start as int),
            d == numeral_digits(s@),
            start < n,
            forall|t: int| 0 <= t < i - start ==> is_digit(#[trigger] d[t]),
            value == digits_value(d.take(i - start)),
        decreases n - i,
    {
        let c = cs[i];
        assert(c == d[i - start]);
        if !('0' <= c && c <= '9') {
            assert(!is_digit(numeral_digits(s@)[i - start]));
            return None;
        }
        assert(d.take(i + 1 - start).drop_last() =~= d.take(i - start));
        let dv = (c as u32 - '0' as u32) as usize;
        if value > (usize::MAX - dv) / 10 {
            proof {
                assert(digits_value(d.take(i + 1 - start)) == value * 10 + dv);
                assert(value * 10 + dv > usize::MAX) by (nonlinear_arith)
                    requires
                        value > (usize::MAX - dv) / 10,
                        dv < 10,
                ;
                if is_numeral(s@) {
                    assert forall|t: int| 0 <= t < d.len() implies is_digit(#[trigger] d[t]) by {
                        assert(is_digit(numeral_digits(s@)[t]));
                    }
                    lemma_digits_prefix_grows(d, i + 1 - start);
                }
            }
            return None;
        }
        value = value * 10 + dv;
        i = i + 1;
    }
    assert(d.take(n - start) =~= d);
    Some(value)
}

proof fn lemma_digits_prefix_grows(d: Seq<char>, k: int)
    requires
        0 <= k <= d.len(),
        forall|t: int| 0 <= t < d.len() ==> is_digit(#[trigger] d[t]),
    ensures
        digits_value(d) >= digits_value(d.take(k)),
        digits_value(d.take(k)) >= 0,
    decreases d.len(),
{
    if k == d.len() {
        assert(d.take(k) =~= d);
        if d.len() > 0 {
            lemma_digits_prefix_grows(d.drop_last(), 0);
        }
    } else {
        lemma_digits_prefix_grows(d.drop_last(), k);
        assert(d.drop_last().take(k) =~= d.take(k));
    }
}

} // verus!
