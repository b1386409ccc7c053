//! Query filters made from what a client typed.
//!
//! Only numbers that were parsed and category names that are known ever get into
//! a query.

use crate::text::{
    append_decimal, chars_of, decimal, digits_value, joined, parse_unsigned, parsed_unsigned,
    pieces, same_text, split, split_bounds, trim_end, trim_range, trim_start, trimmed,
    unsigned_value, upper, upper_of,
};
use vstd::prelude::*;
use vstd::string::StringExecFns;

verus! {

/// The numbers of at most `max` among the parts; other parts are left out.
pub open spec fn numbers(parts: Seq<Seq<char>>, max: nat) -> Seq<nat>
    decreases parts.len(),
{
    if parts.len() == 0 {
        Seq::empty()
    } else {
        match parsed_unsigned(trimmed(parts.last()), max) {
            Some(n) => numbers(parts.drop_last(), max).push(n),
            None => numbers(parts.drop_last(), max),
        }
    }
}

/// The numbers in decimal.
pub open spec fn decimals(ns: Seq<nat>) -> Seq<Seq<char>> {
    ns.map_values(|n: nat| decimal(n))
}

/// The list of the numbers in a comma-separated list, written anew.
pub open spec fn sanitized(s: Seq<char>, max: nat) -> Seq<char> {
    joined(decimals(numbers(split(s, ','), max)), ","@)
}

proof fn lemma_joined_push(parts: Seq<Seq<char>>, part: Seq<char>, sep: Seq<char>)
    ensures
        joined(parts.push(part), sep) == if parts.len() == 0 {
            part
        } else {
            joined(parts, sep) + sep + part
        },
{
    assert(parts.push(part).drop_last() =~= parts);
}

fn sanitize_list(s: &str, max: u64) -> (out: String)
    ensures
        out@ == sanitized(s@, max as nat),
{
    let cs = chars_of(s);
    let bounds = split_bounds(&cs, ',');
    let ghost parts = split(s@, ',');
    let mut out = String::new();
    let mut first = true;
    let mut i: usize = 0;
    proof {
        assert(pieces(cs@, bounds@).len() == bounds@.len());
        assert(decimals(numbers(parts.take(0), max as nat)) =~= Seq::<Seq<char>>::empty());
    }
    while i < bounds.len()
        invariant
            0 <= i <= bounds.len(),
            parts == pieces(cs@, bounds@),
            forall|k: int|
                0 <= k < bounds.len() ==> (#[trigger] bounds[k]).0 <= bounds[k].1 <= cs.len(),
            first <==> numbers(parts.take(i as int), max as nat).len() == 0,
            out@ == joined(decimals(numbers(parts.take(i as int), max as nat)), ","@),
        decreases bounds.len() - i,
    {
        let (from, to) = bounds[i];
        let (a, b) = trim_range(&cs, from, to);
        let ghost so_far = numbers(parts.take(i as int), max as nat);
        proof {
            assert(parts.take(i + 1).drop_last() =~= parts.take(i as int));
            assert(parts.take(i + 1).last() == cs@.subrange(from as int, to as int));
        }
        if let Some(n) = parse_unsigned(&cs, a, b, max) {
            if !first {
                out.append(",");
            }
            append_decimal(&mut out, n);
            first = false;
            proof {
                lemma_joined_push(decimals(so_far), decimal(n as nat), ","@);
                assert(decimals(so_far.push(n as nat)) =~= decimals(so_far).push(
                    decimal(n as nat),
                ));
                assert(Seq::<char>::empty() + decimal(n as nat) =~= decimal(n as nat));
            }
        }
        i = i + 1;
    }
    proof {
        assert(parts.take(parts.len() as int) =~= parts);
    }
    out
}

/// A comma-separated list with everything but 32-bit numbers taken out.
pub fn sanitize_u32_list(s: &str) -> (out: String)
    ensures
        out@ == sanitized(s@, u32::MAX as nat),
{
    sanitize_list(s, u32::MAX as u64)
}

/// A comma-separated list with everything but 64-bit numbers taken out.
pub fn sanitize_u64_list(s: &str) -> (out: String)
    ensures
        out@ == sanitized(s@, u64::MAX as nat),
{
    sanitize_list(s, u64::MAX)
}

/// The clause that keeps rows of the listed GPUs; none without a list.
pub open spec fn gpu_filter(gpus: Option<Seq<char>>) -> Seq<char> {
    match gpus {
        Some(v) => if v.len() == 0 {
            Seq::empty()
        } else {
            " AND gpu_id IN ("@ + sanitized(v, u32::MAX as nat) + ")"@
        },
        None => Seq::empty(),
    }
}

/// What an optional text is.
pub open spec fn text_view(t: Option<&str>) -> Option<Seq<char>> {
    match t {
        Some(s) => Some(s@),
        None => None,
    }
}

pub fn gpu_filter_sql(gpus: Option<&str>) -> (sql: String)
    ensures
        sql@ == gpu_filter(text_view(gpus)),
{
    match gpus {
        Some(v) => if v.is_empty() {
            String::new()
        } else {
            let mut sql = " AND gpu_id IN (".to_string();
            let list = sanitize_u32_list(v);
            sql.append(list.as_str());
            sql.append(")");
            sql
        },
        None => String::new(),
    }
}

/// The clause that keeps rows of the listed metrics; none without a list.
pub open spec fn metric_filter(ids: Option<Seq<char>>) -> Seq<char> {
    match ids {
        Some(v) => if v.len() == 0 {
            Seq::empty()
        } else {
            " AND metric_id IN ("@ + sanitized(v, u64::MAX as nat) + ")"@
        },
        None => Seq::empty(),
    }
}

pub fn metric_filter_sql(ids: Option<&str>) -> (sql: String)
    ensures
        sql@ == metric_filter(text_view(ids)),
{
    match ids {
        Some(v) => if v.is_empty() {
            String::new()
        } else {
            let mut sql = " AND metric_id IN (".to_string();
            let list = sanitize_u64_list(v);
            sql.append(list.as_str());
            sql.append(")");
            sql
        },
        None => String::new(),
    }
}

/// The names of categories that events are stored under.
pub open spec fn is_category_name(s: Seq<char>) -> bool {
    ||| s == "METRIC"@
    ||| s == "API_CALL"@
    ||| s == "KERNEL"@
    ||| s == "MEMCPY"@
    ||| s == "MEMSET"@
    ||| s == "SYNC"@
    ||| s == "OVERHEAD"@
    ||| s == "MARKER"@
}

fn category_name(s: &str) -> (b: bool)
    ensures
        b == is_category_name(s@),
{
    same_text(s, "METRIC") || same_text(s, "API_CALL") || same_text(s, "KERNEL") || same_text(
        s,
        "MEMCPY",
    ) || same_text(s, "MEMSET") || same_text(s, "SYNC") || same_text(s, "OVERHEAD") || same_text(
        s,
        "MARKER",
    )
}

/// The known category names among the parts, in upper case.
pub open spec fn category_names(parts: Seq<Seq<char>>) -> Seq<Seq<char>>
    decreases parts.len(),
{
    if parts.len() == 0 {
        Seq::empty()
    } else {
        let before = category_names(parts.drop_last());
        let name = upper(trimmed(parts.last()));
        if is_category_name(name) {
            before.push(name)
        } else {
            before
        }
    }
}

/// A name in single quotes.
pub open spec fn quoted(name: Seq<char>) -> Seq<char> {
    "'"@ + name + "'"@
}

/// The names in single quotes, with commas between.
pub open spec fn quoted_list(names: Seq<Seq<char>>) -> Seq<char> {
    joined(names.map_values(|n: Seq<char>| quoted(n)), ","@)
}

/// The clause that keeps rows of the listed categories; none without a list, or
/// if no name in it is known.
pub open spec fn category_filter(cats: Option<Seq<char>>, col: Seq<char>) -> Seq<char> {
    match cats {
        Some(v) => {
            let names = category_names(split(v, ','));
            if v.len() == 0 || names.len() == 0 {
                Seq::empty()
            } else {
                " AND "@ + col + " IN ("@ + quoted_list(names) + ")"@
            }
        },
        None => Seq::empty(),
    }
}

pub fn category_filter_sql(cats: Option<&str>, col: &str) -> (sql: String)
    ensures
        sql@ == category_filter(text_view(cats), col@),
{
    let v = match cats {
        Some(v) => v,
        None => {
            return String::new();
        },
    };
    if v.is_empty() {
        return String::new();
    }
    let cs = chars_of(v);
    let bounds = split_bounds(&cs, ',');
    let ghost parts = split(v@, ',');
    let mut list = String::new();
    let mut first = true;
    let mut i: usize = 0;
    proof {
        assert(pieces(cs@, bounds@).len() == bounds@.len());
        assert(category_names(parts.take(0)).map_values(|n: Seq<char>| quoted(n)) =~= Seq::<
            Seq<char>,
        >::empty());
    }
    while i < bounds.len()
        invariant
            0 <= i <= bounds.len(),
            parts == pieces(cs@, bounds@),
            forall|k: int|
                0 <= k < bounds.len() ==> (#[trigger] bounds[k]).0 <= bounds[k].1 <= cs.len(),
            first <==> category_names(parts.take(i as int)).len() == 0,
            list@ == quoted_list(category_names(parts.take(i as int))),
        decreases bounds.len() - i,
    {
        let (from, to) = bounds[i];
        let (a, b) = trim_range(&cs, from, to);
        let name = upper_of(&cs, a, b);
        let ghost so_far = category_names(parts.take(i as int));
        let ghost before = list@;
        proof {
            assert(parts.take(i + 1).drop_last() =~= parts.take(i as int));
            assert(parts.take(i + 1).last() == cs@.subrange(from as int, to as int));
        }
        if category_name(name.as_str()) {
            if !first {
                list.append(",");
            }
            list.append("'");
            list.append(name.as_str());
            list.append("'");
            proof {
                let old_parts = so_far.map_values(|n: Seq<char>| quoted(n));
                lemma_joined_push(old_parts, quoted(name@), ","@);
                assert(so_far.push(name@).map_values(|n: Seq<char>| quoted(n)) =~= old_parts.push(
                    quoted(name@),
                ));
                if first {
                    assert(Seq::<char>::empty() + "'"@ + name@ + "'"@ =~= quoted(name@));
                } else {
                    assert(before + ","@ + "'"@ + name@ + "'"@ =~= before + ","@ + quoted(name@));
                }
            }
            first = false;
        }
        i = i + 1;
    }
    proof {
        assert(parts.take(parts.len() as int) =~= parts);
    }
    if first {
        String::new()
    } else {
        let mut sql = " AND ".to_string();
        sql.append(col);
        sql.append(" IN (");
        sql.append(list.as_str());
        sql.append(")");
        sql
    }
}

/// A character of a sanitized list.
pub open spec fn is_list_char(c: char) -> bool {
    c == ',' || ('0' <= c && c <= '9')
}

proof fn lemma_decimal_chars(n: nat)
    ensures
        decimal(n).len() > 0,
        forall|i: int|
            0 <= i < decimal(n).len() ==> '0' <= #[trigger] decimal(n)[i] && decimal(n)[i] <= '9',
    decreases n,
{
    if n >= 10 {
        lemma_decimal_chars(n / 10);
    }
}

/// Whatever a client sends, a sanitized list holds digits and commas only.
pub proof fn sanitized_lists_hold_digits_only(s: Seq<char>, max: nat)
    ensures
        forall|i: int| 0 <= i < sanitized(s, max).len() ==> is_list_char(#[trigger] sanitized(s, max)[i]),
{
    lemma_joined_digits(numbers(split(s, ','), max));
}

proof fn lemma_joined_digits(ns: Seq<nat>)
    ensures
        forall|i: int|
            0 <= i < joined(decimals(ns), ","@).len() ==> is_list_char(
                #[trigger] joined(decimals(ns), ","@)[i],
            ),
    decreases ns.len(),
{
    reveal_strlit(",");
    if ns.len() == 1 {
        lemma_decimal_chars(ns[0]);
        assert(decimals(ns)[0] == decimal(ns[0]));
    } else if ns.len() > 1 {
        let front = ns.drop_last();
        lemma_joined_digits(front);
        lemma_decimal_chars(ns.last());
        assert(decimals(ns).drop_last() =~= decimals(front));
        assert(decimals(ns).last() == decimal(ns.last()));
        let all = joined(decimals(ns), ","@);
        let head = joined(decimals(front), ","@);
        assert forall|i: int| 0 <= i < all.len() implies is_list_char(#[trigger] all[i]) by {
            if i < head.len() {
                assert(all[i] == head[i]);
            } else if i == head.len() {
                assert(all[i] == ',');
            } else {
                assert(all[i] == decimal(ns.last())[i - head.len() - 1]);
            }
        }
    }
}

proof fn lemma_decimal_parses(n: nat)
    ensures
        digits_value(decimal(n)) == Some(n),
    decreases n,
{
    if n < 10 {
        let s = decimal(n);
        assert(s.drop_last() =~= Seq::<char>::empty());
        assert(digits_value(s.drop_last()) == Some(0nat));
        assert(s.last() == crate::text::digit(n as int));
    } else {
        lemma_decimal_parses(n / 10);
        assert(decimal(n).drop_last() =~= decimal(n / 10));
        assert(decimal(n).last() == crate::text::digit((n % 10) as int));
    }
}

proof fn lemma_decimal_is_trim(n: nat)
    ensures
        trimmed(decimal(n)) == decimal(n),
        unsigned_value(decimal(n)) == Some(n),
{
    lemma_decimal_chars(n);
    lemma_decimal_parses(n);
    assert(trim_start(decimal(n)) == decimal(n)) by {
        assert('0' <= decimal(n)[0] && decimal(n)[0] <= '9');
    }
    assert(trim_end(decimal(n)) == decimal(n)) by {
        assert('0' <= decimal(n)[decimal(n).len() - 1] && decimal(n)[decimal(n).len() - 1] <= '9');
    }
}

/// Splitting off a last piece that holds no separator.
proof fn lemma_split_tail(head: Seq<char>, tail: Seq<char>, sep: char)
    requires
        forall|i: int| 0 <= i < tail.len() ==> #[trigger] tail[i] != sep,
    ensures
        split(head.push(sep) + tail, sep) == split(head, sep).push(tail),
    decreases tail.len(),
{
    let s = head.push(sep) + tail;
    if tail.len() == 0 {
        assert(s =~= head.push(sep));
        assert(s.drop_last() =~= head);
        assert(tail =~= Seq::<char>::empty());
    } else {
        let front = tail.drop_last();
        lemma_split_tail(head, front, sep);
        assert(s.drop_last() =~= head.push(sep) + front);
        assert(s.last() == tail.last());
        let before = split(head, sep).push(front);
        assert(before.drop_last() =~= split(head, sep));
        assert(front.push(tail.last()) =~= tail);
    }
}

/// Text without separators is one piece.
proof fn lemma_split_single(s: Seq<char>, sep: char)
    requires
        forall|i: int| 0 <= i < s.len() ==> #[trigger] s[i] != sep,
    ensures
        split(s, sep) == seq![s],
    decreases s.len(),
{
    if s.len() == 0 {
        assert(s =~= Seq::<char>::empty());
    } else {
        lemma_split_single(s.drop_last(), sep);
        assert(seq![s.drop_last()].drop_last() =~= Seq::<Seq<char>>::empty());
        assert(s.drop_last().push(s.last()) =~= s);
        assert(Seq::<Seq<char>>::empty().push(s) =~= seq![s]);
    }
}

proof fn lemma_split_joined(ns: Seq<nat>)
    requires
        ns.len() > 0,
    ensures
        split(joined(decimals(ns), ","@), ',') == decimals(ns),
    decreases ns.len(),
{
    reveal_strlit(",");
    let last = decimal(ns.last());
    lemma_decimal_chars(ns.last());
    if ns.len() == 1 {
        assert(decimals(ns)[0] == last);
        lemma_split_single(last, ',');
        assert(decimals(ns) =~= seq![last]);
    } else {
        let front = ns.drop_last();
        lemma_split_joined(front);
        let head = joined(decimals(front), ","@);
        assert(decimals(ns).drop_last() =~= decimals(front));
        assert(decimals(ns).last() == last);
        assert(head + ","@ + last =~= head.push(',') + last);
        lemma_split_tail(head, last, ',');
        assert(decimals(front).push(last) =~= decimals(ns));
    }
}

proof fn lemma_numbers_of_decimals(ns: Seq<nat>, max: nat)
    requires
        forall|i: int| 0 <= i < ns.len() ==> #[trigger] ns[i] <= max,
    ensures
        numbers(decimals(ns), max) == ns,
    decreases ns.len(),
{
    if ns.len() == 0 {
        assert(decimals(ns) =~= Seq::<Seq<char>>::empty());
        assert(ns =~= Seq::<nat>::empty());
    } else {
        let front = ns.drop_last();
        lemma_numbers_of_decimals(front, max);
        lemma_decimal_is_trim(ns.last());
        assert(decimals(ns).drop_last() =~= decimals(front));
        assert(decimals(ns).last() == decimal(ns.last()));
        assert(ns[ns.len() - 1] <= max);
        assert(front.push(ns.last()) =~= ns);
    }
}

proof fn lemma_numbers_bounded(parts: Seq<Seq<char>>, max: nat)
    ensures
        forall|i: int| 0 <= i < numbers(parts, max).len() ==> #[trigger] numbers(parts, max)[i] <= max,
    decreases parts.len(),
{
    if parts.len() > 0 {
        lemma_numbers_bounded(parts.drop_last(), max);
        let (before, all) = (numbers(parts.drop_last(), max), numbers(parts, max));
        assert forall|i: int| 0 <= i < all.len() implies #[trigger] all[i] <= max by {
            if i < before.len() {
                assert(before[i] <= max);
            }
        }
    }
}

/// Reading a sanitized list gives back the numbers it was made of.
pub proof fn sanitized_lists_read_back(s: Seq<char>, max: nat)
    ensures
        numbers(split(sanitized(s, max), ','), max) == numbers(split(s, ','), max),
{
    let ns = numbers(split(s, ','), max);
    lemma_numbers_bounded(split(s, ','), max);
    if ns.len() == 0 {
        assert(decimals(ns) =~= Seq::<Seq<char>>::empty());
        let empty = Seq::<char>::empty();
        assert(sanitized(s, max) == empty);
        assert(split(empty, ',') =~= seq![empty]);
        assert(trim_start(empty) == empty);
        assert(trim_end(empty) == empty);
        let parts = seq![empty];
        assert(parts.drop_last() =~= Seq::<Seq<char>>::empty());
        assert(numbers(parts.drop_last(), max) =~= Seq::<nat>::empty());
        assert(unsigned_value(empty) is None);
        assert(numbers(parts, max) =~= ns);
    } else {
        lemma_split_joined(ns);
        lemma_numbers_of_decimals(ns, max);
    }
}

/// Sanitizing twice is sanitizing once.
pub proof fn sanitizing_is_idempotent(s: Seq<char>, max: nat)
    ensures
        sanitized(sanitized(s, max), max) == sanitized(s, max),
{
    sanitized_lists_read_back(s, max);
}

/// Whatever a client sends, a category filter names known categories only.
pub proof fn category_filters_name_known_categories(parts: Seq<Seq<char>>)
    ensures
        forall|i: int|
            0 <= i < category_names(parts).len() ==> is_category_name(
                #[trigger] category_names(parts)[i],
            ),
    decreases parts.len(),
{
    if parts.len() > 0 {
        category_filters_name_known_categories(parts.drop_last());
        let (before, all) = (category_names(parts.drop_last()), category_names(parts));
        assert forall|i: int| 0 <= i < all.len() implies is_category_name(#[trigger] all[i]) by {
            if i < before.len() {
                assert(is_category_name(before[i]));
            }
        }
    }
}

/// A number in decimal is digits without a leading zero, and reads back as itself.
pub proof fn decimals_read_back(n: nat)
    ensures
        digits_value(decimal(n)) == Some(n),
        decimal(n).len() > 0,
        n > 0 ==> decimal(n)[0] != '0',
        n == 0 ==> decimal(n) == seq!['0'],
    decreases n,
{
    lemma_decimal_chars(n);
    lemma_decimal_parses(n);
    if n >= 10 {
        decimals_read_back(n / 10);
        assert(decimal(n)[0] == decimal(n / 10)[0]);
    }
}

/// A list of numbers that fit is kept as it is: filters let through exactly what a
/// well-behaved client asks for.
pub proof fn lists_of_numbers_are_kept(ns: Seq<nat>, max: nat)
    requires
        ns.len() > 0,
        forall|i: int| 0 <= i < ns.len() ==> #[trigger] ns[i] <= max,
    ensures
        sanitized(joined(decimals(ns), ","@), max) == joined(decimals(ns), ","@),
        gpu_filter(Some(joined(decimals(ns), ","@))) == if max == u32::MAX {
            " AND gpu_id IN ("@ + joined(decimals(ns), ","@) + ")"@
        } else {
            gpu_filter(Some(joined(decimals(ns), ","@)))
        },
        metric_filter(Some(joined(decimals(ns), ","@))) == if max == u64::MAX {
            " AND metric_id IN ("@ + joined(decimals(ns), ","@) + ")"@
        } else {
            metric_filter(Some(joined(decimals(ns), ","@)))
        },
{
    lemma_split_joined(ns);
    lemma_numbers_of_decimals(ns, max);
    let list = joined(decimals(ns), ","@);
    if list.len() == 0 {
        assert(split(list, ',') == seq![Seq::<char>::empty()]);
        lemma_decimal_chars(ns[0]);
        assert(decimals(ns)[0] == decimal(ns[0]));
        assert(split(list, ',')[0] == decimal(ns[0]));
    }
}

/// Without a list there is no filter.
pub proof fn no_list_means_no_filter(col: Seq<char>)
    ensures
        gpu_filter(None).len() == 0,
        metric_filter(None).len() == 0,
        category_filter(None, col).len() == 0,
        gpu_filter(Some(Seq::empty())).len() == 0,
        metric_filter(Some(Seq::empty())).len() == 0,
        category_filter(Some(Seq::empty()), col).len() == 0,
{
}

/// A category filter lists the known names among those given, in upper case and in
/// order.
pub proof fn category_filters_keep_known_names(parts: Seq<Seq<char>>)
    ensures
        category_names(parts) == parts.map_values(|p: Seq<char>| upper(trimmed(p))).filter(
            |n: Seq<char>|
                n == "METRIC"@ || n == "API_CALL"@ || n == "KERNEL"@ || n == "MEMCPY"@ || n
                    == "MEMSET"@ || n == "SYNC"@ || n == "OVERHEAD"@ || n == "MARKER"@,
        ),
    decreases parts.len(),
{
    reveal(Seq::filter);
    let name = |p: Seq<char>| upper(trimmed(p));
    if parts.len() > 0 {
        category_filters_keep_known_names(parts.drop_last());
        assert(parts.map_values(name).drop_last() =~= parts.drop_last().map_values(name));
        assert(parts.map_values(name).last() == name(parts.last()));
    }
}

} // verus!
