//! Run tags, which name the default output files, and the choice of output path.
use crate::options::{comma_joined, lemma_decimal_digits, lemma_split_joined, split_commas};
use crate::text::{
    all_white_space, char_is_white_space, chars_of, decimal, is_digit, push_decimal, trim, trim_bounds,
    trimmed,
};
use vstd::prelude::*;
use vstd::string::StringExecFns;

verus! {

/// "on" or "off".
pub open spec fn on_off(enabled: bool) -> Seq<char> {
    if enabled {
        "on"@
    } else {
        "off"@
    }
}

/// The tag of a target-cost run, such as `t7_n100000_th4_pon_s123`, or
/// `..._srand` without a seed.
pub open spec fn spec_target_cost_run_tag(
    target: usize,
    trials: usize,
    threads: usize,
    pity_enabled: bool,
    seed: Option<u64>,
) -> Seq<char> {
    "t"@ + decimal(target as nat) + "_n"@ + decimal(trials as nat) + "_th"@ + decimal(threads as nat)
        + "_p"@ + on_off(pity_enabled) + "_"@ + match seed {
        Some(v) => "s"@ + decimal(v as nat),
        None => "srand"@,
    }
}

/// The stock counts joined by `-`, such as `200-2-0-0-0-3`.
pub open spec fn joined_stock(stock: [usize; 6]) -> Seq<char> {
    decimal(stock[0] as nat) + "-"@ + decimal(stock[1] as nat) + "-"@ + decimal(stock[2] as nat)
        + "-"@ + decimal(stock[3] as nat) + "-"@ + decimal(stock[4] as nat) + "-"@ + decimal(
        stock[5] as nat,
    )
}

/// The tag of a stock-drain run, such as `stock_200-2-0-0-0-3_n10000_th4_pon_s111`,
/// or `..._srand` without a seed.
pub open spec fn spec_stock_drain_run_tag(
    stock: [usize; 6],
    trials: usize,
    threads: usize,
    pity_enabled: bool,
    seed: Option<u64>,
) -> Seq<char> {
    "stock_"@ + joined_stock(stock) + "_n"@ + decimal(trials as nat) + "_th"@ + decimal(
        threads as nat,
    ) + "_p"@ + on_off(pity_enabled) + "_s"@ + match seed {
        Some(v) => decimal(v as nat),
        None => "rand"@,
    }
}

/// Appends "on" or "off".
fn push_on_off(out: &mut String, enabled: bool)
    ensures
        final(out)@ == old(out)@ + on_off(enabled),
{
    if enabled {
        out.append("on");
    } else {
        out.append("off");
    }
}

/// The tag of a target-cost run.
pub fn build_target_cost_run_tag(
    target: usize,
    trials: usize,
    threads: usize,
    pity_enabled: bool,
    seed: Option<u64>,
) -> (r: String)
    ensures
        r@ == spec_target_cost_run_tag(target, trials, threads, pity_enabled, seed),
{
    let mut out = String::new();
    out.append("t");
    push_decimal(&mut out, target as u64);
    out.append("_n");
    push_decimal(&mut out, trials as u64);
    out.append("_th");
    push_decimal(&mut out, threads as u64);
    out.append("_p");
    push_on_off(&mut out, pity_enabled);
    out.append("_");
    match seed {
        Some(v) => {
            out.append("s");
            push_decimal(&mut out, v);
        },
        None => {
            out.append("srand");
        },
    }
    assert(out@ =~= spec_target_cost_run_tag(target, trials, threads, pity_enabled, seed));
    out
}

/// Appends the stock counts joined by `-`.
fn push_joined_stock(out: &mut String, stock: [usize; 6])
    ensures
        final(out)@ == old(out)@ + joined_stock(stock),
{
    let ghost start = out@;
    push_decimal(out, stock[0] as u64);
    out.append("-");
    push_decimal(out, stock[1] as u64);
    out.append("-");
    push_decimal(out, stock[2] as u64);
    let ghost half = out@;
    assert(half =~= start + (decimal(stock[0] as nat) + "-"@ + decimal(stock[1] as nat) + "-"@
        + decimal(stock[2] as nat)));
    out.append("-");
    push_decimal(out, stock[3] as u64);
    out.append("-");
    push_decimal(out, stock[4] as u64);
    out.append("-");
    push_decimal(out, stock[5] as u64);
    assert(out@ =~= start + joined_stock(stock));
}

/// The tag of a stock-drain run.
pub fn build_stock_drain_run_tag(
    stock: [usize; 6],
    trials: usize,
    threads: usize,
    pity_enabled: bool,
    seed: Option<u64>,
) -> (r: String)
    ensures
        r@ == spec_stock_drain_run_tag(stock, trials, threads, pity_enabled, seed),
{
    let mut out = String::new();
    out.append("stock_");
    push_joined_stock(&mut out, stock);
    let ghost head = out@;
    out.append("_n");
    push_decimal(&mut out, trials as u64);
    out.append("_th");
    push_decimal(&mut out, threads as u64);
    out.append("_p");
    push_on_off(&mut out, pity_enabled);
    out.append("_s");
    match seed {
        Some(v) => {
            push_decimal(&mut out, v);
        },
        None => {
            out.append("rand");
        },
    }
    assert(head =~= "stock_"@ + joined_stock(stock));
    assert(out@ =~= spec_stock_drain_run_tag(stock, trials, threads, pity_enabled, seed));
    out
}

/// The placeholder a path flag given without a value stands for.
pub open spec fn auto_path() -> Seq<char> {
    "__AUTO__"@
}

/// The output path an optional path flag selects: none without the flag; the
/// default when the flag has no value, the placeholder or a blank value; the
/// given path otherwise.
pub open spec fn spec_resolve_output_path(flag: Option<Option<String>>, default_path: Seq<char>) -> Option<
    Seq<char>,
> {
    match flag {
        None => None,
        Some(None) => Some(default_path),
        Some(Some(path)) => if path@ == auto_path() || all_white_space(path@) {
            Some(default_path)
        } else {
            Some(path@)
        },
    }
}

/// Whether `s` holds only whitespace (or nothing), as `s.trim().is_empty()` tests.
pub fn is_blank(s: &str) -> (r: bool)
    ensures
        r == all_white_space(s@),
{
    let chars = chars_of(s);
    let mut i: usize = 0;
    while i < chars.len()
        invariant
            chars@ == s@,
            i <= chars.len(),
            forall|k: int| 0 <= k < i ==> crate::text::is_white_space(#[trigger] s@[k]),
        decreases chars.len() - i,
    {
        if !char_is_white_space(chars[i]) {
            return false;
        }
        i = i + 1;
    }
    true
}

/// The output path an optional path flag selects.
pub fn resolve_output_path(flag: Option<Option<String>>, default_path: &str) -> (r: Option<String>)
    ensures
        match r {
            Some(path) => spec_resolve_output_path(flag, default_path@) == Some(path@),
            None => spec_resolve_output_path(flag, default_path@) is None,
        },
{
    match flag {
        None => None,
        Some(None) => Some(String::from_str(default_path)),
        Some(Some(path)) => {
            let auto = String::from_str("__AUTO__");
            if path == auto || is_blank(path.as_str()) {
                Some(String::from_str(default_path))
            } else {
                Some(path)
            }
        },
    }
}

/// Whether an answer to "export the samples?" says yes: `y` or `Y`, with any
/// whitespace around it.
pub open spec fn spec_accepts_export(answer: Seq<char>) -> bool {
    trim(answer) == seq!['y'] || trim(answer) == seq!['Y']
}

/// Reads an answer to "export the samples?".
pub fn accepts_export(answer: &str) -> (r: bool)
    ensures
        r == spec_accepts_export(answer@),
{
    let chars = chars_of(answer);
    assert(chars@.subrange(0, chars@.len() as int) =~= answer@);
    let (lo, hi) = trim_bounds(&chars, 0, chars.len());
    if hi - lo == 1 && (chars[lo] == 'y' || chars[lo] == 'Y') {
        assert(chars@.subrange(lo as int, hi as int) =~= seq![chars[lo as int]]);
        true
    } else {
        proof {
            let t = chars@.subrange(lo as int, hi as int);
            if t == seq!['y'] || t == seq!['Y'] {
                assert(t.len() == 1 && t[0] == chars[lo as int]);
            }
        }
        false
    }
}

/// The CSV path an answer to "which path?" selects: the default when the
/// answer is blank, the answer without surrounding whitespace otherwise.
pub open spec fn spec_answered_csv_path(answer: Seq<char>, default_path: Seq<char>) -> Seq<char> {
    if trim(answer).len() == 0 {
        default_path
    } else {
        trim(answer)
    }
}

/// Reads an answer to "which path?".
pub fn answered_csv_path(answer: &str, default_path: &str) -> (r: String)
    ensures
        r@ == spec_answered_csv_path(answer@, default_path@),
{
    let path = trimmed(answer);
    if path.unicode_len() == 0 {
        String::from_str(default_path)
    } else {
        path
    }
}

/// `s` with every `-` read as a `,`.
pub open spec fn dashes_to_commas(s: Seq<char>) -> Seq<char> {
    s.map_values(|c: char| if c == '-' { ',' } else { c })
}

/// A numeral has no dash to read as a comma.
proof fn lemma_numeral_without_dashes(n: nat)
    ensures
        dashes_to_commas(decimal(n)) == decimal(n),
{
    lemma_decimal_digits(n);
    assert(dashes_to_commas(decimal(n)) =~= decimal(n)) by {
        assert forall|i: int| 0 <= i < decimal(n).len() implies dashes_to_commas(decimal(n))[i]
            == decimal(n)[i] by {
            assert(is_digit(decimal(n)[i]));
        }
    }
}

/// The stock part of a stock-drain run tag lists the counts in level order:
/// cut at its dashes, part `i` is the numeral of `stock[i]`.
pub proof fn lemma_stock_tag_in_level_order(stock: [usize; 6])
    ensures
        split_commas(dashes_to_commas(joined_stock(stock))) == stock@.map_values(
            |v: usize| decimal(v as nat),
        ),
{
    reveal_strlit("-");
    let s = stock@;
    let d = |i: int| decimal(s[i] as nat);
    let dash = seq!['-'];
    let comma = seq![','];
    assert forall|i: int| 0 <= i < 6 implies dashes_to_commas(#[trigger] d(i)) == d(i) by {
        lemma_numeral_without_dashes(s[i] as nat);
    }
    assert(joined_stock(stock) == d(0) + dash + d(1) + dash + d(2) + dash + d(3) + dash + d(4) + dash
        + d(5));
    let c = d(0) + comma + d(1) + comma + d(2) + comma + d(3) + comma + d(4) + comma + d(5);
    assert(dashes_to_commas(joined_stock(stock)) =~= c) by {
        assert(dashes_to_commas(d(0)) == d(0));
        assert(dashes_to_commas(d(1)) == d(1));
        assert(dashes_to_commas(d(2)) == d(2));
        assert(dashes_to_commas(d(3)) == d(3));
        assert(dashes_to_commas(d(4)) == d(4));
        assert(dashes_to_commas(d(5)) == d(5));
        lemma_map_concat(d(0), d(1), d(2), d(3), d(4), d(5));
    }
    assert(s.take(1).drop_last() =~= s.take(0));
    assert(s.take(2).drop_last() =~= s.take(1));
    assert(s.take(3).drop_last() =~= s.take(2));
    assert(s.take(4).drop_last() =~= s.take(3));
    assert(s.take(5).drop_last() =~= s.take(4));
    assert(s.drop_last() =~= s.take(5));
    assert(comma_joined(s.take(1)) == d(0));
    assert(comma_joined(s.take(2)) =~= d(0) + comma + d(1));
    assert(comma_joined(s.take(3)) =~= d(0) + comma + d(1) + comma + d(2));
    assert(comma_joined(s.take(4)) =~= d(0) + comma + d(1) + comma + d(2) + comma + d(3));
    assert(comma_joined(s.take(5)) =~= d(0) + comma + d(1) + comma + d(2) + comma + d(3) + comma + d(4));
    assert(comma_joined(s) =~= c);
    lemma_split_joined(s);
}

/// Reading dashes as commas in six numerals joined by dashes.
proof fn lemma_map_concat(
    d0: Seq<char>,
    d1: Seq<char>,
    d2: Seq<char>,
    d3: Seq<char>,
    d4: Seq<char>,
    d5: Seq<char>,
)
    requires
        dashes_to_commas(d0) == d0,
        dashes_to_commas(d1) == d1,
        dashes_to_commas(d2) == d2,
        dashes_to_commas(d3) == d3,
        dashes_to_commas(d4) == d4,
        dashes_to_commas(d5) == d5,
    ensures
        dashes_to_commas(
            d0 + seq!['-'] + d1 + seq!['-'] + d2 + seq!['-'] + d3 + seq!['-'] + d4 + seq!['-'] + d5,
        ) == d0 + seq![','] + d1 + seq![','] + d2 + seq![','] + d3 + seq![','] + d4 + seq![','] + d5,
{
    let j = d0 + seq!['-'] + d1 + seq!['-'] + d2 + seq!['-'] + d3 + seq!['-'] + d4 + seq!['-'] + d5;
    let c = d0 + seq![','] + d1 + seq![','] + d2 + seq![','] + d3 + seq![','] + d4 + seq![','] + d5;
    assert forall|a: Seq<char>, b: Seq<char>|
        #[trigger] dashes_to_commas(a + b) == dashes_to_commas(a) + dashes_to_commas(b) by {
        assert(dashes_to_commas(a + b) =~= dashes_to_commas(a) + dashes_to_commas(b));
    }
    assert(dashes_to_commas(seq!['-']) =~= seq![',']);
    assert(dashes_to_commas(j) =~= c);
}

} // verus!
