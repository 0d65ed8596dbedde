//! The command-line values whose grammar is this project's own: a trial count
//! and a stock vector.
use crate::text::{
    chars_of, decimal, digit_char, digit_value, digits_value, is_digit, is_white_space,
    parse_usize_chars, spec_parse_usize, trim, trim_bounds, trim_end, trim_start, unsigned_digits,
};
use vstd::prelude::*;
use vstd::string::StringExecFns;

verus! {

/// A trial count must be a positive integer.
pub open spec fn trials_not_integer_message() -> Seq<char> {
    "trials 必须是正整数"@
}

/// A trial count must be at least one.
pub open spec fn trials_zero_message() -> Seq<char> {
    "trials 必须 >= 1"@
}

/// Every part of a stock vector must be a non-negative integer.
pub open spec fn stock_not_integer_message() -> Seq<char> {
    "stock 必须包含 6 个非负整数"@
}

/// A stock vector must have one count for each of levels 1-6.
pub open spec fn stock_length_message() -> Seq<char> {
    "stock 必须恰好包含 6 个数量，对应 1-6 级"@
}

/// Reads a trial count: a `usize` numeral (as `str::parse` reads it) of at least one.
pub fn parse_trials(s: &str) -> (r: Result<usize, String>)
    ensures
        spec_parse_usize(s@) is None ==> (r matches Err(m) && m@ == trials_not_integer_message()),
        spec_parse_usize(s@) == Some(0usize) ==> (r matches Err(m) && m@ == trials_zero_message()),
        spec_parse_usize(s@) matches Some(n) ==> (n > 0 ==> (r matches Ok(v) && v == n)),
{
    let chars = chars_of(s);
    assert(chars@.subrange(0, chars@.len() as int) =~= s@);
    match parse_usize_chars(&chars, 0, chars.len()) {
        None => Err(String::from_str("trials 必须是正整数")),
        Some(n) => {
            if n == 0 {
                Err(String::from_str("trials 必须 >= 1"))
            } else {
                Ok(n)
            }
        },
    }
}

/// `s` cut at every comma, as `str::split(',')` cuts it: one more part than
/// there are commas, empty parts included.
pub open spec fn split_commas(s: Seq<char>) -> Seq<Seq<char>>
    decreases s.len(),
{
    if s.len() == 0 {
        seq![Seq::<char>::empty()]
    } else {
        let rest = split_commas(s.drop_last());
        if s.last() == ',' {
            rest.push(Seq::<char>::empty())
        } else {
            rest.update(rest.len() - 1, rest.last().push(s.last()))
        }
    }
}

/// Splitting never yields an empty list.
pub proof fn lemma_split_commas_nonempty(s: Seq<char>)
    ensures
        split_commas(s).len() >= 1,
    decreases s.len(),
{
    if s.len() > 0 {
        lemma_split_commas_nonempty(s.drop_last());
    }
}

/// Every part of `s`, trimmed, reads as a `usize`.
pub open spec fn all_parts_parse(s: Seq<char>) -> bool {
    forall|i: int|
        0 <= i < split_commas(s).len() ==> (#[trigger] spec_parse_usize(trim(split_commas(s)[i])))
            is Some
}

/// Reads a stock vector: six comma-separated counts for levels 1-6; each
/// part may carry whitespace around it.
pub fn parse_stock(s: &str) -> (r: Result<[usize; 6], String>)
    ensures
        !all_parts_parse(s@) ==> (r matches Err(m) && m@ == stock_not_integer_message()),
        all_parts_parse(s@) && split_commas(s@).len() != 6 ==> (r matches Err(m) && m@
            == stock_length_message()),
        r matches Ok(stock) ==> all_parts_parse(s@) && split_commas(s@).len() == 6 && forall|i: int|
            0 <= i < 6 ==> spec_parse_usize(trim(#[trigger] split_commas(s@)[i])) == Some(stock[i]),
        all_parts_parse(s@) && split_commas(s@).len() == 6 ==> r is Ok,
{
    let chars = chars_of(s);
    let n = chars.len();
    // Part boundaries: `starts[k]..ends[k]` is the k-th part.
    let mut starts: Vec<usize> = Vec::new();
    let mut ends: Vec<usize> = Vec::new();
    let mut start: usize = 0;
    let mut i: usize = 0;
    proof {
        assert(chars@.subrange(0, 0) =~= Seq::<char>::empty());
    }
    while i < n
        invariant
            n == chars.len(),
            chars@ == s@,
            start <= i <= n,
            starts.len() == ends.len(),
            split_commas(chars@.subrange(0, i as int)).len() == starts.len() + 1,
            forall|k: int|
                #![trigger starts@[k]]
                0 <= k < starts.len() ==> starts[k] <= ends[k] <= i && split_commas(
                    chars@.subrange(0, i as int),
                )[k] == chars@.subrange(starts[k] as int, ends[k] as int),
            split_commas(chars@.subrange(0, i as int)).last() == chars@.subrange(
                start as int,
                i as int,
            ),
        decreases n - i,
    {
        let ghost prefix = chars@.subrange(0, i as int);
        let ghost next = chars@.subrange(0, i + 1);
        assert(next.drop_last() =~= prefix);
        assert(next.last() == chars@[i as int]);
        proof {
            lemma_split_commas_nonempty(prefix);
        }
        let ghost old_starts = starts@;
        let ghost old_ends = ends@;
        let ghost old_start = start;
        if chars[i] == ',' {
            starts.push(start);
            ends.push(i);
            start = i + 1;
            assert(chars@.subrange(start as int, i + 1) =~= Seq::<char>::empty());
        } else {
            assert(chars@.subrange(start as int, i + 1) =~= chars@.subrange(start as int, i as int).push(
                chars@[i as int],
            ));
        }
        proof {
            let before = split_commas(prefix);
            let after = split_commas(next);
            assert forall|k: int| #![trigger starts@[k]] 0 <= k < starts.len() implies starts[k] <= ends[k] <= i + 1
                && after[k] == chars@.subrange(starts[k] as int, ends[k] as int) by {
                if k < old_starts.len() {
                    assert(starts[k] == old_starts[k] && ends[k] == old_ends[k]);
                    assert(after[k] == before[k]);
                } else {
                    assert(after[k] == before.last());
                }
            }
            assert(next == chars@.subrange(0, (i + 1) as int));
        }
        i = i + 1;
    }
    let ghost old_starts = starts@;
    let ghost old_ends = ends@;
    starts.push(start);
    ends.push(n);
    assert(chars@.subrange(0, n as int) =~= s@);
    assert forall|m: int| 0 <= m < starts.len() implies starts[m] <= ends[m] <= n && split_commas(s@)[m]
        == chars@.subrange(starts[m] as int, ends[m] as int) by {
        if m < old_starts.len() {
            assert(starts[m] == old_starts[m] && ends[m] == old_ends[m]);
            assert(split_commas(chars@.subrange(0, n as int))[m] == chars@.subrange(
                old_starts[m] as int,
                old_ends[m] as int,
            ));
        } else {
            assert(m == split_commas(s@).len() - 1);
            assert(split_commas(s@)[m] == split_commas(s@).last());
        }
    }
    let parts = starts.len();
    let mut values: Vec<usize> = Vec::new();
    let mut k: usize = 0;
    while k < parts
        invariant
            parts == starts.len(),
            parts == ends.len(),
            parts == split_commas(s@).len(),
            n == chars.len(),
            chars@ == s@,
            forall|m: int|
                0 <= m < parts ==> starts[m] <= ends[m] <= n && split_commas(s@)[m]
                    == chars@.subrange(starts[m] as int, ends[m] as int),
            k <= parts,
            values.len() == k,
            forall|m: int|
                0 <= m < k ==> spec_parse_usize(trim(#[trigger] split_commas(s@)[m])) == Some(
                    values[m],
                ),
        decreases parts - k,
    {
        let (lo, hi) = trim_bounds(&chars, starts[k], ends[k]);
        match parse_usize_chars(&chars, lo, hi) {
            Some(value) => values.push(value),
            None => {
                assert(spec_parse_usize(trim(split_commas(s@)[k as int])) is None);
                return Err(String::from_str("stock 必须包含 6 个非负整数"));
            },
        }
        k = k + 1;
    }
    assert forall|m: int| 0 <= m < split_commas(s@).len() implies (#[trigger] spec_parse_usize(
        trim(split_commas(s@)[m]),
    )) is Some by {
        assert(spec_parse_usize(trim(split_commas(s@)[m])) == Some(values[m]));
    }
    if parts != 6 {
        return Err(String::from_str("stock 必须恰好包含 6 个数量，对应 1-6 级"));
    }
    Ok([values[0], values[1], values[2], values[3], values[4], values[5]])
}

} // verus!

verus! {

/// The values' decimal numerals joined by commas, such as `200,2,0,0,0,3`.
pub open spec fn comma_joined(values: Seq<usize>) -> Seq<char>
    decreases values.len(),
{
    if values.len() <= 1 {
        if values.len() == 0 {
            Seq::empty()
        } else {
            decimal(values[0] as nat)
        }
    } else {
        comma_joined(values.drop_last()).push(',') + decimal(values.last() as nat)
    }
}

/// A numeral reads back as the value it was written from.
pub proof fn lemma_parse_decimal(n: usize)
    ensures
        spec_parse_usize(decimal(n as nat)) == Some(n),
        trim(decimal(n as nat)) == decimal(n as nat),
        !decimal(n as nat).contains(','),
{
    lemma_decimal_digits(n as nat);
    let d = decimal(n as nat);
    assert(unsigned_digits(d) == d);
    assert(!is_white_space(d[0]));
    assert(trim_start(d) == d);
    assert(!is_white_space(d.last()));
    assert(trim_end(d) == d);
    if d.contains(',') {
        let i = choose|i: int| 0 <= i < d.len() && d[i] == ',';
        assert(is_digit(d[i]));
    }
}

/// A numeral is a non-empty string of digits whose value is the number.
pub proof fn lemma_decimal_digits(n: nat)
    ensures
        decimal(n).len() > 0,
        forall|i: int| 0 <= i < decimal(n).len() ==> is_digit(#[trigger] decimal(n)[i]),
        digits_value(decimal(n)) == n,
    decreases n,
{
    reveal_with_fuel(decimal, 2);
    if n >= 10 {
        lemma_decimal_digits(n / 10);
        let d = decimal(n);
        assert(d.drop_last() =~= decimal(n / 10));
        lemma_digit_char(n % 10);
        assert(d.last() == digit_char((n % 10) as int));
        assert(digits_value(d) == digits_value(d.drop_last()) * 10 + digit_value(d.last()));
        assert((n / 10) * 10 + n % 10 == n);
    } else {
        lemma_digit_char(n);
        let d = decimal(n);
        assert(d.drop_last() =~= Seq::<char>::empty());
        assert(d.last() == digit_char(n as int));
        assert(digits_value(d) == digits_value(d.drop_last()) * 10 + digit_value(d.last()));
    }
}

/// The digit character of `d` is a digit of value `d`.
pub proof fn lemma_digit_char(d: nat)
    requires
        d < 10,
    ensures
        is_digit(digit_char(d as int)),
        digit_value(digit_char(d as int)) == d,
{
}

/// Without commas, a string is a single part.
pub proof fn lemma_split_without_commas(s: Seq<char>)
    requires
        !s.contains(','),
    ensures
        split_commas(s) == seq![s],
    decreases s.len(),
{
    if s.len() > 0 {
        let p = s.drop_last();
        assert(!p.contains(',')) by {
            if p.contains(',') {
                let i = choose|i: int| 0 <= i < p.len() && p[i] == ',';
                assert(s[i] == ',');
            }
        }
        lemma_split_without_commas(p);
        assert(s.last() != ',') by {
            assert(s[s.len() - 1] == s.last());
        }
        assert(p.push(s.last()) =~= s);
    } else {
        assert(s =~= Seq::<char>::empty());
    }
}

/// Splitting at a comma splits the two sides independently.
pub proof fn lemma_split_at_comma(s: Seq<char>, t: Seq<char>)
    ensures
        split_commas(s.push(',') + t) == split_commas(s) + split_commas(t),
    decreases t.len(),
{
    let u = s.push(',') + t;
    if t.len() == 0 {
        assert(u =~= s.push(','));
        assert(u.drop_last() =~= s);
        assert(split_commas(t) == seq![Seq::<char>::empty()]);
        assert(split_commas(u) =~= split_commas(s) + split_commas(t));
    } else {
        lemma_split_at_comma(s, t.drop_last());
        lemma_split_commas_nonempty(t.drop_last());
        lemma_split_commas_nonempty(s);
        assert(u.drop_last() =~= s.push(',') + t.drop_last());
        assert(u.last() == t.last());
        let left = split_commas(s);
        let right = split_commas(t.drop_last());
        if t.last() == ',' {
            assert(split_commas(u) =~= left + split_commas(t));
        } else {
            let rest = left + right;
            assert(rest.last() == right.last());
            assert(split_commas(t) == right.update(right.len() - 1, right.last().push(t.last())));
            assert(split_commas(u) =~= left + split_commas(t));
        }
    }
}

/// A list of numerals joined by commas splits back into the numerals.
pub proof fn lemma_split_joined(values: Seq<usize>)
    requires
        values.len() >= 1,
    ensures
        split_commas(comma_joined(values)) == values.map_values(|v: usize| decimal(v as nat)),
    decreases values.len(),
{
    let expected = values.map_values(|v: usize| decimal(v as nat));
    if values.len() == 1 {
        lemma_parse_decimal(values[0]);
        lemma_split_without_commas(decimal(values[0] as nat));
        assert(split_commas(comma_joined(values)) =~= expected);
    } else {
        lemma_split_joined(values.drop_last());
        lemma_parse_decimal(values.last());
        lemma_split_without_commas(decimal(values.last() as nat));
        lemma_split_at_comma(comma_joined(values.drop_last()), decimal(values.last() as nat));
        assert(values.drop_last().map_values(|v: usize| decimal(v as nat)) + seq![
            decimal(values.last() as nat),
        ] =~= expected);
    }
}

/// A stock vector written as its counts joined by commas reads back as itself:
/// every part parses, there are six of them, and the `i`-th is `stock[i]`.
/// With `parse_stock`'s contract this makes `parse_stock` return `Ok(stock)`.
pub proof fn lemma_stock_round_trip(stock: [usize; 6])
    ensures
        all_parts_parse(comma_joined(stock@)),
        split_commas(comma_joined(stock@)).len() == 6,
        forall|i: int|
            0 <= i < 6 ==> spec_parse_usize(trim(#[trigger] split_commas(comma_joined(stock@))[i]))
                == Some(stock[i]),
{
    lemma_split_joined(stock@);
    let parts = split_commas(comma_joined(stock@));
    assert forall|i: int| 0 <= i < 6 implies spec_parse_usize(trim(#[trigger] parts[i])) == Some(
        stock[i],
    ) by {
        lemma_parse_decimal(stock[i]);
    }
}

/// A numeral of a positive count reads back as that trial count.
pub proof fn lemma_trials_round_trip(n: usize)
    requires
        n >= 1,
    ensures
        spec_parse_usize(decimal(n as nat)) == Some(n),
{
    lemma_parse_decimal(n);
}

} // verus!
