//! Text as sequences of characters: decimal numbers, trimming, splitting and
//! joining.

use vstd::prelude::*;

verus! {

/// `String::push` appends one character.
pub assume_specification[ String::push ](s: &mut String, c: char)
    ensures
        final(s)@ == old(s)@.push(c),
;

/// The texts of some strings.
pub open spec fn texts(v: Seq<String>) -> Seq<Seq<char>> {
    v.map_values(|s: String| s@)
}

/// The characters of `s`.
pub fn chars_of(s: &str) -> (out: Vec<char>)
    ensures
        out@ == s@,
{
    let mut out: Vec<char> = Vec::new();
    for c in it: s.chars()
        invariant
            out@ == s@.take(it.index()),
            it.seq() == s@,
    {
        out.push(c);
        assert(out@ =~= s@.take(it.index() + 1));
    }
    assert(s@.take(s@.len() as int) =~= s@);
    out
}

/// Whether two texts are the same.
pub fn same_text(a: &str, b: &str) -> (same: bool)
    ensures
        same == (a@ == b@),
{
    let x = chars_of(a);
    let y = chars_of(b);
    if x.len() != y.len() {
        return false;
    }
    let mut i: usize = 0;
    while i < x.len()
        invariant
            x@ == a@,
            y@ == b@,
            x.len() == y.len(),
            0 <= i <= x.len(),
            forall|k: int| 0 <= k < i ==> x@[k] == y@[k],
        decreases x.len() - i,
    {
        if x[i] != y[i] {
            return false;
        }
        i = i + 1;
    }
    assert(x@ =~= y@);
    true
}

/// The text made of `cs[from..to]`.
pub fn text_of(cs: &Vec<char>, from: usize, to: usize) -> (out: String)
    requires
        from <= to <= cs.len(),
    ensures
        out@ == cs@.subrange(from as int, to as int),
{
    let mut out = String::new();
    let mut i: usize = from;
    while i < to
        invariant
            from <= i <= to <= cs.len(),
            out@ == cs@.subrange(from as int, i as int),
        decreases to - i,
    {
        out.push(cs[i]);
        i = i + 1;
        assert(out@ =~= cs@.subrange(from as int, i as int));
    }
    out
}

/// The decimal digit for `d`, for `0 <= d < 10`.
pub open spec fn digit(d: int) -> char {
    if d == 0 {
        '0'
    } else if d == 1 {
        '1'
    } else if d == 2 {
        '2'
    } else if d == 3 {
        '3'
    } else if d == 4 {
        '4'
    } else if d == 5 {
        '5'
    } else if d == 6 {
        '6'
    } else if d == 7 {
        '7'
    } else if d == 8 {
        '8'
    } else {
        '9'
    }
}

/// `n` in decimal, without leading zeros.
pub open spec fn decimal(n: nat) -> Seq<char>
    decreases n,
{
    if n < 10 {
        seq![digit(n as int)]
    } else {
        decimal(n / 10).push(digit((n % 10) as int))
    }
}

fn digit_char(d: u64) -> (c: char)
    requires
        d < 10,
    ensures
        c == digit(d as int),
{
    match d {
        0 => '0',
        1 => '1',
        2 => '2',
        3 => '3',
        4 => '4',
        5 => '5',
        6 => '6',
        7 => '7',
        8 => '8',
        _ => '9',
    }
}

/// Appends `n` in decimal.
pub fn append_decimal(out: &mut String, n: u64)
    ensures
        final(out)@ == old(out)@ + decimal(n as nat),
    decreases n,
{
    if n >= 10 {
        append_decimal(out, n / 10);
    }
    out.push(digit_char(n % 10));
    proof {
        if n >= 10 {
            assert(old(out)@ + decimal((n / 10) as nat).push(digit((n % 10) as int)) =~= (old(
                out,
            )@ + decimal((n / 10) as nat)).push(digit((n % 10) as int)));
        } else {
            assert(old(out)@ + seq![digit(n as int)] =~= old(out)@.push(digit(n as int)));
        }
        assert(out@ == old(out)@ + decimal(n as nat));
    }
}

/// The lower-case hexadecimal digit for `d`, for `0 <= d < 16`.
pub open spec fn hex_digit(d: int) -> char {
    if d < 10 {
        digit(d)
    } else if d == 10 {
        'a'
    } else if d == 11 {
        'b'
    } else if d == 12 {
        'c'
    } else if d == 13 {
        'd'
    } else if d == 14 {
        'e'
    } else {
        'f'
    }
}

/// `n` in hexadecimal, without leading zeros.
pub open spec fn hexadecimal(n: nat) -> Seq<char>
    decreases n,
{
    if n < 16 {
        seq![hex_digit(n as int)]
    } else {
        hexadecimal(n / 16).push(hex_digit((n % 16) as int))
    }
}

fn hex_digit_char(d: u64) -> (c: char)
    requires
        d < 16,
    ensures
        c == hex_digit(d as int),
{
    if d < 10 {
        return digit_char(d);
    }
    match d {
        10 => 'a',
        11 => 'b',
        12 => 'c',
        13 => 'd',
        14 => 'e',
        _ => 'f',
    }
}

/// Appends `n` in hexadecimal.
pub fn append_hexadecimal(out: &mut String, n: u64)
    ensures
        final(out)@ == old(out)@ + hexadecimal(n as nat),
    decreases n,
{
    if n >= 16 {
        append_hexadecimal(out, n / 16);
    }
    out.push(hex_digit_char(n % 16));
    proof {
        let last = hex_digit((n % 16) as int);
        if n >= 16 {
            assert(old(out)@ + hexadecimal((n / 16) as nat).push(last) =~= (old(out)@ + hexadecimal(
                (n / 16) as nat,
            )).push(last));
        } else {
            assert(old(out)@ + seq![last] =~= old(out)@.push(last));
        }
    }
}

/// The value of a decimal digit, if `c` is one.
pub open spec fn digit_value(c: char) -> Option<nat> {
    if '0' <= c && c <= '9' {
        Some((c as int - '0' as int) as nat)
    } else {
        None
    }
}

/// The number that a string of digits stands for; `None` if it holds anything
/// but digits. The empty string stands for zero.
pub open spec fn digits_value(s: Seq<char>) -> Option<nat>
    decreases s.len(),
{
    if s.len() == 0 {
        Some(0)
    } else {
        match (digits_value(s.drop_last()), digit_value(s.last())) {
            (Some(n), Some(d)) => Some(n * 10 + d),
            _ => None,
        }
    }
}

/// A number as it may be written: an optional plus sign, then one or more
/// digits.
pub open spec fn unsigned_value(s: Seq<char>) -> Option<nat> {
    let digits = if s.len() > 0 && s[0] == '+' {
        s.skip(1)
    } else {
        s
    };
    if digits.len() == 0 {
        None
    } else {
        digits_value(digits)
    }
}

/// The number written as `s`, if it is one and is at most `max`.
pub open spec fn parsed_unsigned(s: Seq<char>, max: nat) -> Option<nat> {
    match unsigned_value(s) {
        Some(n) => if n <= max {
            Some(n)
        } else {
            None
        },
        None => None,
    }
}

proof fn lemma_digits_prefix(s: Seq<char>, k: int)
    requires
        0 <= k <= s.len(),
    ensures
        digits_value(s.take(k)) is None ==> digits_value(s) is None,
        digits_value(s) matches Some(n) ==> digits_value(s.take(k))->0 <= n,
    decreases s.len() - k,
{
    if k < s.len() {
        lemma_digits_prefix(s, k + 1);
        assert(s.take(k + 1).drop_last() =~= s.take(k));
    } else {
        assert(s.take(k) =~= s);
    }
}

/// Parses `cs[from..to]` as an unsigned number of at most `max`.
pub fn parse_unsigned(cs: &Vec<char>, from: usize, to: usize, max: u64) -> (n: Option<u64>)
    requires
        from <= to <= cs.len(),
    ensures
        match n {
            Some(v) => parsed_unsigned(cs@.subrange(from as int, to as int), max as nat) == Some(
                v as nat,
            ),
            None => parsed_unsigned(cs@.subrange(from as int, to as int), max as nat) is None,
        },
{
    let ghost whole = cs@.subrange(from as int, to as int);
    let start: usize = if from < to && cs[from] == '+' {
        from + 1
    } else {
        from
    };
    let ghost s = cs@.subrange(start as int, to as int);
    proof {
        if start > from {
            assert(whole.skip(1) =~= s);
            assert(whole[0] == '+');
        } else if from < to {
            assert(whole[0] == cs@[from as int]);
        }
    }
    if start == to {
        return None;
    }
    let mut acc: u64 = 0;
    let mut i: usize = start;
    while i < to
        invariant
            from <= start <= i <= to <= cs.len(),
            whole == cs@.subrange(from as int, to as int),
            s == cs@.subrange(start as int, to as int),
            unsigned_value(whole) == digits_value(s),
            digits_value(s.take(i - start)) == Some(acc as nat),
            acc <= max,
        decreases to - i,
    {
        let c = cs[i];
        proof {
            let upto = s.take(i - start + 1);
            assert(upto.drop_last() =~= s.take(i - start));
            assert(upto.last() == c);
            lemma_digits_prefix(s, i - start + 1);
        }
        if !('0' <= c && c <= '9') {
            return None;
        }
        let d: u64 = (c as u64) - ('0' as u64);
        if acc > max / 10 || (acc == max / 10 && d > max % 10) {
            return None;
        }
        acc = acc * 10 + d;
        i = i + 1;
    }
    assert(s.take(to - start) =~= s);
    Some(acc)
}

/// The characters with the Unicode property White_Space.
pub open spec fn is_white_space(c: char) -> bool {
    let u = c as int;
    ||| 0x9 <= u <= 0xd
    ||| u == 0x20
    ||| u == 0x85
    ||| u == 0xa0
    ||| u == 0x1680
    ||| 0x2000 <= u <= 0x200a
    ||| u == 0x2028
    ||| u == 0x2029
    ||| u == 0x202f
    ||| u == 0x205f
    ||| u == 0x3000
}

pub fn white_space(c: char) -> (b: bool)
    ensures
        b == is_white_space(c),
{
    let u: u32 = c as u32;
    (0x9 <= u && u <= 0xd) || u == 0x20 || u == 0x85 || u == 0xa0 || u == 0x1680 || (0x2000 <= u
        && u <= 0x200a) || u == 0x2028 || u == 0x2029 || u == 0x202f || u == 0x205f || u == 0x3000
}

/// `s` without leading white space.
pub open spec fn trim_start(s: Seq<char>) -> Seq<char>
    decreases s.len(),
{
    if s.len() > 0 && is_white_space(s[0]) {
        trim_start(s.skip(1))
    } else {
        s
    }
}

/// `s` without trailing white space.
pub open spec fn trim_end(s: Seq<char>) -> Seq<char>
    decreases s.len(),
{
    if s.len() > 0 && is_white_space(s.last()) {
        trim_end(s.drop_last())
    } else {
        s
    }
}

/// `s` without white space at either end.
pub open spec fn trimmed(s: Seq<char>) -> Seq<char> {
    trim_end(trim_start(s))
}

/// Where `cs[from..to]` begins once leading white space is skipped.
pub fn skip_space(cs: &Vec<char>, from: usize, to: usize) -> (a: usize)
    requires
        from <= to <= cs.len(),
    ensures
        from <= a <= to,
        cs@.subrange(a as int, to as int) == trim_start(cs@.subrange(from as int, to as int)),
{
    let mut a: usize = from;
    while a < to && white_space(cs[a])
        invariant
            from <= a <= to <= cs.len(),
            trim_start(cs@.subrange(a as int, to as int)) == trim_start(
                cs@.subrange(from as int, to as int),
            ),
        decreases to - a,
    {
        proof {
            let here = cs@.subrange(a as int, to as int);
            assert(here[0] == cs@[a as int]);
            assert(here.skip(1) =~= cs@.subrange(a + 1, to as int));
        }
        a = a + 1;
    }
    proof {
        if a < to {
            assert(cs@.subrange(a as int, to as int)[0] == cs@[a as int]);
        }
    }
    a
}

/// Where `cs[from..to]` ends once trailing white space is left out.
pub fn drop_space(cs: &Vec<char>, from: usize, to: usize) -> (b: usize)
    requires
        from <= to <= cs.len(),
    ensures
        from <= b <= to,
        cs@.subrange(from as int, b as int) == trim_end(cs@.subrange(from as int, to as int)),
{
    let mut b: usize = to;
    while from < b && white_space(cs[b - 1])
        invariant
            from <= b <= to <= cs.len(),
            trim_end(cs@.subrange(from as int, b as int)) == trim_end(
                cs@.subrange(from as int, to as int),
            ),
        decreases b - from,
    {
        proof {
            let here = cs@.subrange(from as int, b as int);
            assert(here.last() == cs@[b - 1]);
            assert(here.drop_last() =~= cs@.subrange(from as int, b - 1));
        }
        b = b - 1;
    }
    proof {
        if from < b {
            assert(cs@.subrange(from as int, b as int).last() == cs@[b - 1]);
        }
    }
    b
}

/// Where `cs[from..to]` begins and ends once trimmed.
pub fn trim_range(cs: &Vec<char>, from: usize, to: usize) -> (r: (usize, usize))
    requires
        from <= to <= cs.len(),
    ensures
        from <= r.0 <= r.1 <= to,
        cs@.subrange(r.0 as int, r.1 as int) == trimmed(cs@.subrange(from as int, to as int)),
{
    let a = skip_space(cs, from, to);
    let b = drop_space(cs, a, to);
    (a, b)
}

/// The pieces of `s` between occurrences of `sep`; there is always one.
pub open spec fn split(s: Seq<char>, sep: char) -> Seq<Seq<char>>
    decreases s.len(),
{
    if s.len() == 0 {
        seq![Seq::empty()]
    } else {
        let before = split(s.drop_last(), sep);
        if s.last() == sep {
            before.push(Seq::empty())
        } else {
            before.drop_last().push(before.last().push(s.last()))
        }
    }
}

/// Pieces of `cs` given by where they begin and end.
pub open spec fn pieces(cs: Seq<char>, bounds: Seq<(usize, usize)>) -> Seq<Seq<char>> {
    bounds.map_values(|b: (usize, usize)| cs.subrange(b.0 as int, b.1 as int))
}

/// Where the pieces of `cs` between occurrences of `sep` begin and end.
pub fn split_bounds(cs: &Vec<char>, sep: char) -> (bounds: Vec<(usize, usize)>)
    ensures
        pieces(cs@, bounds@) == split(cs@, sep),
        forall|k: int|
            0 <= k < bounds.len() ==> (#[trigger] bounds[k]).0 <= bounds[k].1 <= cs.len(),
{
    let mut done: Vec<(usize, usize)> = Vec::new();
    let mut start: usize = 0;
    let mut i: usize = 0;
    proof {
        assert(cs@.take(0) =~= Seq::<char>::empty());
        assert(cs@.subrange(0, 0) =~= Seq::<char>::empty());
        assert(pieces(cs@, done@).push(cs@.subrange(0, 0)) =~= seq![Seq::<char>::empty()]);
    }
    while i < cs.len()
        invariant
            0 <= start <= i <= cs.len(),
            forall|k: int|
                0 <= k < done.len() ==> (#[trigger] done[k]).0 <= done[k].1 <= cs.len(),
            split(cs@.take(i as int), sep) == pieces(cs@, done@).push(
                cs@.subrange(start as int, i as int),
            ),
        decreases cs.len() - i,
    {
        let ghost before = done@;
        let ghost from = start;
        proof {
            let upto = cs@.take(i + 1);
            assert(upto.drop_last() =~= cs@.take(i as int));
            assert(upto.last() == cs@[i as int]);
            let p = pieces(cs@, done@).push(cs@.subrange(start as int, i as int));
            assert(p.drop_last() =~= pieces(cs@, done@));
            assert(p.last().push(cs@[i as int]) =~= cs@.subrange(start as int, i + 1));
        }
        if cs[i] == sep {
            done.push((start, i));
            start = i + 1;
            proof {
                assert(pieces(cs@, done@) =~= pieces(cs@, before).push(
                    cs@.subrange(from as int, i as int),
                ));
                assert(cs@.subrange(start as int, i + 1) =~= Seq::<char>::empty());
            }
        }
        i = i + 1;
    }
    let ghost before = done@;
    done.push((start, cs.len()));
    proof {
        assert(cs@.take(cs.len() as int) =~= cs@);
        assert(pieces(cs@, done@) =~= pieces(cs@, before).push(
            cs@.subrange(start as int, cs.len() as int),
        ));
    }
    done
}

/// `line` without one carriage return at its end.
pub open spec fn without_cr(line: Seq<char>) -> Seq<char> {
    if line.len() > 0 && line.last() == '\r' {
        line.drop_last()
    } else {
        line
    }
}

/// The first `n` pieces, each of them ended by a line feed, as lines.
pub open spec fn ended_lines(parts: Seq<Seq<char>>, n: int) -> Seq<Seq<char>>
    decreases n,
{
    if n <= 0 {
        Seq::empty()
    } else {
        ended_lines(parts, n - 1).push(without_cr(parts[n - 1]))
    }
}

/// The lines of `s`. A line ends with a line feed, or a carriage return and a
/// line feed; what follows the last ending is a line if there is anything.
pub open spec fn lines(s: Seq<char>) -> Seq<Seq<char>> {
    let parts = split(s, '\n');
    let ended = ended_lines(parts, parts.len() - 1);
    if parts.last().len() == 0 {
        ended
    } else {
        ended.push(parts.last())
    }
}

/// Where the lines of `cs` begin and end.
pub fn line_bounds(cs: &Vec<char>) -> (bounds: Vec<(usize, usize)>)
    ensures
        pieces(cs@, bounds@) == lines(cs@),
        forall|k: int|
            0 <= k < bounds.len() ==> (#[trigger] bounds[k]).0 <= bounds[k].1 <= cs.len(),
{
    let parts = split_bounds(cs, '\n');
    let ghost texts = split(cs@, '\n');
    proof {
        lemma_split_has_pieces(cs@, '\n');
        assert(pieces(cs@, parts@).len() == parts@.len());
    }
    let mut bounds: Vec<(usize, usize)> = Vec::new();
    let mut i: usize = 0;
    proof {
        assert(pieces(cs@, bounds@) =~= ended_lines(texts, 0));
    }
    while i < parts.len() - 1
        invariant
            0 <= i < parts.len(),
            texts == pieces(cs@, parts@),
            forall|k: int|
                0 <= k < parts.len() ==> (#[trigger] parts[k]).0 <= parts[k].1 <= cs.len(),
            forall|k: int|
                0 <= k < bounds.len() ==> (#[trigger] bounds[k]).0 <= bounds[k].1 <= cs.len(),
            pieces(cs@, bounds@) == ended_lines(texts, i as int),
        decreases parts.len() - i,
    {
        let (a, b) = parts[i];
        let ghost before = bounds@;
        proof {
            assert(texts[i as int] == cs@.subrange(a as int, b as int));
            if a < b {
                assert(texts[i as int].last() == cs@[b - 1]);
                assert(texts[i as int].drop_last() =~= cs@.subrange(a as int, b - 1));
            }
        }
        if a < b && cs[b - 1] == '\r' {
            bounds.push((a, b - 1));
        } else {
            bounds.push((a, b));
        }
        i = i + 1;
        proof {
            assert(pieces(cs@, bounds@) =~= pieces(cs@, before).push(
                without_cr(texts[i - 1]),
            ));
        }
    }
    let (a, b) = parts[i];
    proof {
        assert(texts.last() == cs@.subrange(a as int, b as int));
    }
    if a < b {
        let ghost before = bounds@;
        bounds.push((a, b));
        proof {
            assert(pieces(cs@, bounds@) =~= pieces(cs@, before).push(texts.last()));
        }
    }
    bounds
}

proof fn lemma_split_has_pieces(s: Seq<char>, sep: char)
    ensures
        split(s, sep).len() > 0,
    decreases s.len(),
{
    if s.len() > 0 {
        lemma_split_has_pieces(s.drop_last(), sep);
    }
}

/// `s` begins with `prefix`.
pub open spec fn starts_with(s: Seq<char>, prefix: Seq<char>) -> bool {
    s.len() >= prefix.len() && s.take(prefix.len() as int) == prefix
}

/// Whether `cs[from..to]` begins with `prefix`.
pub fn range_starts_with(cs: &Vec<char>, from: usize, to: usize, prefix: &Vec<char>) -> (b: bool)
    requires
        from <= to <= cs.len(),
    ensures
        b == starts_with(cs@.subrange(from as int, to as int), prefix@),
{
    let ghost s = cs@.subrange(from as int, to as int);
    if to - from < prefix.len() {
        return false;
    }
    let mut i: usize = 0;
    while i < prefix.len()
        invariant
            from <= to <= cs.len(),
            s == cs@.subrange(from as int, to as int),
            prefix.len() <= to - from,
            0 <= i <= prefix.len(),
            forall|k: int| 0 <= k < i ==> s[k] == prefix@[k],
        decreases prefix.len() - i,
    {
        if cs[from + i] != prefix[i] {
            proof {
                assert(s.take(prefix.len() as int)[i as int] == s[i as int]);
            }
            return false;
        }
        i = i + 1;
    }
    assert(s.take(prefix.len() as int) =~= prefix@);
    true
}

/// `s` with each occurrence of `from` replaced, found from left to right.
pub open spec fn replaced(s: Seq<char>, from: Seq<char>, to: Seq<char>) -> Seq<char>
    decreases s.len(),
{
    if from.len() == 0 || s.len() < from.len() {
        s
    } else if starts_with(s, from) {
        to + replaced(s.skip(from.len() as int), from, to)
    } else {
        seq![s[0]] + replaced(s.skip(1), from, to)
    }
}

/// Replaces each occurrence of `from`, which is not empty.
pub fn replace_text(text: &str, from: &str, to: &str) -> (out: String)
    requires
        from@.len() > 0,
    ensures
        out@ == replaced(text@, from@, to@),
{
    let cs = chars_of(text);
    let pattern = chars_of(from);
    let mut out = String::new();
    let mut i: usize = 0;
    proof {
        assert(cs@.skip(0) =~= cs@);
        assert(Seq::<char>::empty() + replaced(cs@, from@, to@) =~= replaced(cs@, from@, to@));
    }
    while i < cs.len()
        invariant
            0 <= i <= cs.len(),
            cs@ == text@,
            pattern@ == from@,
            pattern.len() > 0,
            out@ + replaced(cs@.skip(i as int), from@, to@) == replaced(text@, from@, to@),
        decreases cs.len() - i,
    {
        let ghost rest = cs@.skip(i as int);
        let ghost before = out@;
        proof {
            assert(rest =~= cs@.subrange(i as int, cs.len() as int));
        }
        if range_starts_with(&cs, i, cs.len(), &pattern) {
            out.append(to);
            i = i + pattern.len();
            proof {
                assert(rest.skip(from@.len() as int) =~= cs@.skip(i as int));
                assert(before + (to@ + replaced(cs@.skip(i as int), from@, to@)) =~= (before + to@)
                    + replaced(cs@.skip(i as int), from@, to@));
            }
        } else {
            out.push(cs[i]);
            i = i + 1;
            proof {
                assert(rest.skip(1) =~= cs@.skip(i as int));
                if rest.len() < from@.len() {
                    assert(replaced(rest, from@, to@) == rest);
                    assert(replaced(rest.skip(1), from@, to@) == rest.skip(1));
                    assert(before + rest =~= before.push(rest[0]) + rest.skip(1));
                } else {
                    assert(before + (seq![rest[0]] + replaced(rest.skip(1), from@, to@))
                        =~= before.push(rest[0]) + replaced(rest.skip(1), from@, to@));
                }
            }
        }
    }
    proof {
        assert(cs@.skip(i as int) =~= Seq::<char>::empty());
        assert(out@ + replaced(Seq::<char>::empty(), from@, to@) =~= out@);
    }
    out
}

/// The characters of `s` up to the first white space.
pub open spec fn before_space(s: Seq<char>) -> Seq<char>
    decreases s.len(),
{
    if s.len() == 0 || is_white_space(s[0]) {
        Seq::empty()
    } else {
        seq![s[0]] + before_space(s.skip(1))
    }
}

/// The first word of `s`; empty if it has none.
pub open spec fn first_word(s: Seq<char>) -> Seq<char> {
    before_space(trim_start(s))
}

/// Where the first word of `cs[from..to]` begins and ends.
pub fn first_word_range(cs: &Vec<char>, from: usize, to: usize) -> (r: (usize, usize))
    requires
        from <= to <= cs.len(),
    ensures
        from <= r.0 <= r.1 <= to,
        cs@.subrange(r.0 as int, r.1 as int) == first_word(cs@.subrange(from as int, to as int)),
{
    let a = skip_space(cs, from, to);
    let ghost word_on = cs@.subrange(a as int, to as int);
    let mut b: usize = a;
    proof {
        assert(cs@.subrange(a as int, a as int) + before_space(word_on) =~= before_space(word_on));
    }
    while b < to && !white_space(cs[b])
        invariant
            from <= a <= b <= to <= cs.len(),
            cs@.subrange(a as int, b as int) + before_space(cs@.subrange(b as int, to as int))
                == before_space(word_on),
        decreases to - b,
    {
        proof {
            let here = cs@.subrange(b as int, to as int);
            assert(here[0] == cs@[b as int]);
            assert(here.skip(1) =~= cs@.subrange(b + 1, to as int));
            let rest = before_space(here.skip(1));
            assert(cs@.subrange(a as int, b as int) + (seq![here[0]] + rest) =~= cs@.subrange(
                a as int,
                b + 1,
            ) + rest);
        }
        b = b + 1;
    }
    proof {
        let here = cs@.subrange(b as int, to as int);
        if b < to {
            assert(here[0] == cs@[b as int]);
        }
        assert(before_space(here) =~= Seq::<char>::empty());
        assert(cs@.subrange(a as int, b as int) + Seq::<char>::empty() =~= cs@.subrange(
            a as int,
            b as int,
        ));
    }
    (a, b)
}

/// `needle` occurs in `s` at `i`.
pub open spec fn occurs_at(s: Seq<char>, needle: Seq<char>, i: int) -> bool {
    0 <= i <= s.len() && starts_with(s.skip(i), needle)
}

/// `needle` occurs somewhere in `s`.
pub open spec fn has_text(s: Seq<char>, needle: Seq<char>) -> bool {
    exists|i: int| #[trigger] occurs_at(s, needle, i)
}

/// Whether `needle` occurs in `cs`.
pub fn chars_have(cs: &Vec<char>, needle: &str) -> (b: bool)
    ensures
        b == has_text(cs@, needle@),
{
    let n = chars_of(needle);
    let mut i: usize = 0;
    loop
        invariant
            n@ == needle@,
            0 <= i <= cs.len(),
            forall|k: int| 0 <= k < i ==> !#[trigger] occurs_at(cs@, needle@, k),
        decreases cs.len() - i,
    {
        proof {
            assert(cs@.skip(i as int) =~= cs@.subrange(i as int, cs.len() as int));
        }
        if range_starts_with(cs, i, cs.len(), &n) {
            assert(occurs_at(cs@, needle@, i as int));
            return true;
        }
        assert(!occurs_at(cs@, needle@, i as int));
        if i == cs.len() {
            return false;
        }
        i = i + 1;
    }
}

/// The parts one after another with `sep` between them.
pub open spec fn joined(parts: Seq<Seq<char>>, sep: Seq<char>) -> Seq<char>
    decreases parts.len(),
{
    if parts.len() == 0 {
        Seq::empty()
    } else if parts.len() == 1 {
        parts[0]
    } else {
        joined(parts.drop_last(), sep) + sep + parts.last()
    }
}

/// `c` in upper case if it is an ASCII letter.
pub open spec fn ascii_upper(c: char) -> char {
    if 'a' <= c && c <= 'z' {
        (c as int - 32) as char
    } else {
        c
    }
}

/// `c` in lower case if it is an ASCII letter.
pub open spec fn ascii_lower(c: char) -> char {
    if 'A' <= c && c <= 'Z' {
        (c as int + 32) as char
    } else {
        c
    }
}

pub open spec fn upper(s: Seq<char>) -> Seq<char> {
    s.map_values(|c: char| ascii_upper(c))
}

pub open spec fn lower(s: Seq<char>) -> Seq<char> {
    s.map_values(|c: char| ascii_lower(c))
}

fn upper_char(c: char) -> (u: char)
    ensures
        u == ascii_upper(c),
{
    if 'a' <= c && c <= 'z' {
        ((c as u8) - 32) as char
    } else {
        c
    }
}

fn lower_char(c: char) -> (l: char)
    ensures
        l == ascii_lower(c),
{
    if 'A' <= c && c <= 'Z' {
        ((c as u8) + 32) as char
    } else {
        c
    }
}

/// `cs[from..to]` in upper case.
pub fn upper_of(cs: &Vec<char>, from: usize, to: usize) -> (out: String)
    requires
        from <= to <= cs.len(),
    ensures
        out@ == upper(cs@.subrange(from as int, to as int)),
{
    let mut out = String::new();
    let mut i: usize = from;
    while i < to
        invariant
            from <= i <= to <= cs.len(),
            out@ == upper(cs@.subrange(from as int, i as int)),
        decreases to - i,
    {
        out.push(upper_char(cs[i]));
        i = i + 1;
        assert(out@ =~= upper(cs@.subrange(from as int, i as int)));
    }
    out
}

/// `cs` in lower case.
pub fn lower_of(cs: &Vec<char>) -> (out: Vec<char>)
    ensures
        out@ == lower(cs@),
{
    let mut out: Vec<char> = Vec::new();
    let mut i: usize = 0;
    while i < cs.len()
        invariant
            0 <= i <= cs.len(),
            out@ == lower(cs@.take(i as int)),
        decreases cs.len() - i,
    {
        out.push(lower_char(cs[i]));
        i = i + 1;
        assert(out@ =~= lower(cs@.take(i as int)));
    }
    assert(cs@.take(cs.len() as int) =~= cs@);
    out
}

} // verus!
