//! The CSV layout of the samples and the integer part of the summaries.
use crate::stats::{ascending, percentile, sorted_copy, spec_percentile};
use crate::stock_drain::{StockDrainSimulationResult, StockDrainTrialResult};
use crate::options::{
    lemma_decimal_digits, lemma_digit_char, lemma_split_at_comma, lemma_split_without_commas,
    split_commas,
};
use crate::text::{decimal, digit_char, digit_value, is_digit, push_decimal};
use vstd::prelude::*;
use vstd::string::StringExecFns;

verus! {

/// How a histogram treats outlying samples.
#[derive(Clone, Copy, Debug, PartialEq, Eq, Structural)]
pub enum HistogramOutlierMode {
    /// Every sample kept (spelled `none`).
    NoFilter,
    Iqr,
    Mad,
    Quantile,
    Winsor,
}

/// Each value preceded by a comma, such as `,0,1,0`.
pub open spec fn comma_values(s: Seq<usize>) -> Seq<char>
    decreases s.len(),
{
    if s.len() == 0 {
        Seq::empty()
    } else {
        comma_values(s.drop_last()) + ","@ + decimal(s.last() as nat)
    }
}

/// Appends each value, preceded by a comma.
pub fn write_values(out: &mut String, values: &[usize])
    ensures
        final(out)@ == old(out)@ + comma_values(values@),
{
    let ghost start = out@;
    let mut i: usize = 0;
    assert(values@.subrange(0, 0) =~= Seq::<usize>::empty());
    assert(out@ =~= start + comma_values(values@.subrange(0, 0)));
    while i < values.len()
        invariant
            i <= values@.len(),
            out@ == start + comma_values(values@.subrange(0, i as int)),
        decreases values.len() - i,
    {
        out.append(",");
        push_decimal(out, values[i] as u64);
        let ghost next = values@.subrange(0, i + 1);
        assert(next.drop_last() =~= values@.subrange(0, i as int));
        i = i + 1;
        assert(out@ =~= start + comma_values(values@.subrange(0, i as int)));
    }
    assert(values@.subrange(0, i as int) =~= values@);
}

/// The header of the stock-drain sample matrix.
pub open spec fn spec_stock_drain_csv_header(enable_pity: bool) -> Seq<char> {
    "trial,level1,level2,level3,level4,level5,level6,level7"@ + if enable_pity {
        ",pity2,pity3,pity4,pity5,pity6,pity7,pity_used2,pity_used3,pity_used4,pity_used5,pity_used6,pity_used7"@
    } else {
        Seq::empty()
    }
}

/// The header of the stock-drain sample matrix: the trial number and the pets of
/// levels 1-7, then with pity enabled the progress and the redemptions of levels 2-7.
pub fn stock_drain_csv_header(enable_pity: bool) -> (r: String)
    ensures
        r@ == spec_stock_drain_csv_header(enable_pity),
{
    let mut out = String::from_str("trial,level1,level2,level3,level4,level5,level6,level7");
    if enable_pity {
        out.append(
            ",pity2,pity3,pity4,pity5,pity6,pity7,pity_used2,pity_used3,pity_used4,pity_used5,pity_used6,pity_used7",
        );
    } else {
        assert(out@ =~= out@ + Seq::<char>::empty());
    }
    out
}

/// The row of the `index`-th sample (counted from zero) of the stock-drain matrix.
pub open spec fn spec_stock_drain_csv_row(index: int, sample: StockDrainTrialResult, enable_pity: bool) -> Seq<char> {
    decimal((index + 1) as nat) + comma_values(sample.pets@) + if enable_pity {
        comma_values(sample.pity@) + comma_values(sample.pity_used@)
    } else {
        Seq::empty()
    }
}

/// The row of the `index`-th sample (counted from zero): its trial number,
/// counted from one, then its columns in header order.
pub fn stock_drain_csv_row(index: usize, sample: &StockDrainTrialResult, enable_pity: bool) -> (r: String)
    requires
        index < usize::MAX,
    ensures
        r@ == spec_stock_drain_csv_row(index as int, *sample, enable_pity),
{
    let mut out = String::new();
    push_decimal(&mut out, (index + 1) as u64);
    write_values(&mut out, sample.pets.as_slice());
    if enable_pity {
        write_values(&mut out, sample.pity.as_slice());
        write_values(&mut out, sample.pity_used.as_slice());
    }
    assert(out@ =~= spec_stock_drain_csv_row(index as int, *sample, enable_pity));
    out
}

/// The header of the target-cost samples.
pub fn target_cost_csv_header() -> (r: String)
    ensures
        r@ == "trial,eggs"@,
{
    String::from_str("trial,eggs")
}

/// The row of the `index`-th target-cost sample (counted from zero): its trial
/// number, counted from one, and its egg cost.
pub fn target_cost_csv_row(index: usize, eggs: usize) -> (r: String)
    requires
        index < usize::MAX,
    ensures
        r@ == decimal((index + 1) as nat) + ","@ + decimal(eggs as nat),
{
    let mut out = String::new();
    push_decimal(&mut out, (index + 1) as u64);
    out.append(",");
    push_decimal(&mut out, eggs as u64);
    out
}

/// A column of the stock-drain sample matrix.
#[derive(Clone, Copy, Debug, PartialEq, Eq, Structural)]
pub enum SampleColumn {
    /// Pets of levels 1-7.
    Pets,
    /// Pity progress of levels 2-7.
    Pity,
    /// Pity redemptions of levels 2-7.
    PityUsed,
}

/// How many levels a column family has.
pub open spec fn column_count(column: SampleColumn) -> int {
    match column {
        SampleColumn::Pets => 7,
        _ => 6,
    }
}

/// The level of the first column of a family.
pub open spec fn first_level(column: SampleColumn) -> int {
    match column {
        SampleColumn::Pets => 1,
        _ => 2,
    }
}

/// The `index`-th value of a column family in one sample.
pub open spec fn column_value(r: StockDrainTrialResult, column: SampleColumn, index: int) -> usize {
    match column {
        SampleColumn::Pets => r.pets@[index],
        SampleColumn::Pity => r.pity@[index],
        SampleColumn::PityUsed => r.pity_used@[index],
    }
}

/// One column of the matrix, in trial order.
pub open spec fn column_of(samples: Seq<StockDrainTrialResult>, column: SampleColumn, index: int) -> Seq<
    usize,
> {
    Seq::new(samples.len(), |i: int| column_value(samples[i], column, index))
}

/// Order statistics of one column of the matrix.
#[derive(Clone, Copy, Debug, PartialEq, Eq)]
pub struct ColumnStats {
    pub level: usize,
    pub min: usize,
    pub p5: usize,
    pub p10: usize,
    pub p20: usize,
    pub p30: usize,
    pub p40: usize,
    pub p50: usize,
    pub p60: usize,
    pub p70: usize,
    pub p80: usize,
    pub p90: usize,
    pub p95: usize,
    pub max: usize,
}

/// `s` holds the order statistics of `values`, for `level`.
pub open spec fn stats_of(s: ColumnStats, values: Seq<usize>, level: int) -> bool {
    &&& s.level == level
    &&& s.min == ascending(values)[0]
    &&& s.max == ascending(values)[values.len() - 1]
    &&& s.p5 == spec_percentile(values, 5)
    &&& s.p10 == spec_percentile(values, 10)
    &&& s.p20 == spec_percentile(values, 20)
    &&& s.p30 == spec_percentile(values, 30)
    &&& s.p40 == spec_percentile(values, 40)
    &&& s.p50 == spec_percentile(values, 50)
    &&& s.p60 == spec_percentile(values, 60)
    &&& s.p70 == spec_percentile(values, 70)
    &&& s.p80 == spec_percentile(values, 80)
    &&& s.p90 == spec_percentile(values, 90)
    &&& s.p95 == spec_percentile(values, 95)
}

/// The values of one column of the matrix, in trial order.
pub fn column_values(samples: &Vec<StockDrainTrialResult>, column: SampleColumn, index: usize) -> (r:
    Vec<usize>)
    requires
        index < column_count(column),
    ensures
        r@ == column_of(samples@, column, index as int),
{
    let mut values: Vec<usize> = Vec::new();
    let mut i: usize = 0;
    while i < samples.len()
        invariant
            index < column_count(column),
            i <= samples.len(),
            values@ == column_of(samples@.subrange(0, i as int), column, index as int),
        decreases samples.len() - i,
    {
        let sample = &samples[i];
        let value = match column {
            SampleColumn::Pets => sample.pets[index],
            SampleColumn::Pity => sample.pity[index],
            SampleColumn::PityUsed => sample.pity_used[index],
        };
        values.push(value);
        i = i + 1;
        assert(values@ =~= column_of(samples@.subrange(0, i as int), column, index as int));
    }
    assert(samples@.subrange(0, i as int) =~= samples@);
    values
}

/// Order statistics of the values of one column.
pub fn stats_of_values(values: &Vec<usize>, level: usize) -> (r: ColumnStats)
    requires
        values.len() >= 1,
    ensures
        stats_of(r, values@, level as int),
{
    let sorted = sorted_copy(values);
    let n = sorted.len();
    ColumnStats {
        level,
        min: sorted[0],
        p5: percentile(&sorted, 5),
        p10: percentile(&sorted, 10),
        p20: percentile(&sorted, 20),
        p30: percentile(&sorted, 30),
        p40: percentile(&sorted, 40),
        p50: percentile(&sorted, 50),
        p60: percentile(&sorted, 60),
        p70: percentile(&sorted, 70),
        p80: percentile(&sorted, 80),
        p90: percentile(&sorted, 90),
        p95: percentile(&sorted, 95),
        max: sorted[n - 1],
    }
}

/// Order statistics of every column of a family, level by level.
pub fn summarize_stock_drain_columns(samples: &Vec<StockDrainTrialResult>, column: SampleColumn) -> (r:
    Vec<ColumnStats>)
    requires
        samples.len() >= 1,
    ensures
        r.len() == column_count(column),
        forall|i: int|
            0 <= i < r.len() ==> stats_of(
                #[trigger] r[i],
                column_of(samples@, column, i),
                first_level(column) + i,
            ),
{
    let count: usize = match column {
        SampleColumn::Pets => 7,
        _ => 6,
    };
    let first: usize = match column {
        SampleColumn::Pets => 1,
        _ => 2,
    };
    let mut stats: Vec<ColumnStats> = Vec::new();
    let mut index: usize = 0;
    while index < count
        invariant
            samples.len() >= 1,
            count == column_count(column),
            first == first_level(column),
            index <= count,
            stats.len() == index,
            forall|i: int|
                0 <= i < index ==> stats_of(
                    #[trigger] stats[i],
                    column_of(samples@, column, i),
                    first_level(column) + i,
                ),
        decreases count - index,
    {
        let values = column_values(samples, column, index);
        stats.push(stats_of_values(&values, first + index));
        index = index + 1;
    }
    stats
}

/// What the stock-drain summary report is written from.
pub struct StockDrainSummaryJsonInput<'a> {
    pub path: &'a str,
    pub command: &'a [String],
    pub stock: [usize; 6],
    pub enable_pity: bool,
    pub seed: Option<u64>,
    pub output_csv_path: Option<&'a str>,
    pub output_json_path: Option<&'a str>,
    pub simulation: &'a StockDrainSimulationResult,
}

/// The pity part of the stock-drain summary.
#[derive(Debug)]
pub struct StockDrainPitySummary {
    pub progress_by_level: Vec<ColumnStats>,
    pub used_by_level: Vec<ColumnStats>,
}

/// The order statistics of the stock-drain summary report.
#[derive(Debug)]
pub struct StockDrainSummary {
    pub pets_by_level: Vec<ColumnStats>,
    pub pity: Option<StockDrainPitySummary>,
}

/// The order statistics the summary report holds: every pet column, and with
/// pity enabled every progress and redemption column.
pub fn summarize_stock_drain(input: &StockDrainSummaryJsonInput) -> (r: StockDrainSummary)
    requires
        input.simulation.samples.len() >= 1,
    ensures
        r.pets_by_level.len() == 7,
        forall|i: int|
            0 <= i < 7 ==> stats_of(
                #[trigger] r.pets_by_level[i],
                column_of(input.simulation.samples@, SampleColumn::Pets, i),
                1 + i,
            ),
        r.pity is Some == input.enable_pity,
        r.pity matches Some(p) ==> p.progress_by_level.len() == 6 && p.used_by_level.len() == 6
            && (forall|i: int|
            0 <= i < 6 ==> stats_of(
                #[trigger] p.progress_by_level[i],
                column_of(input.simulation.samples@, SampleColumn::Pity, i),
                2 + i,
            )) && (forall|i: int|
            0 <= i < 6 ==> stats_of(
                #[trigger] p.used_by_level[i],
                column_of(input.simulation.samples@, SampleColumn::PityUsed, i),
                2 + i,
            )),
{
    let samples = &input.simulation.samples;
    let pets_by_level = summarize_stock_drain_columns(samples, SampleColumn::Pets);
    let pity = if input.enable_pity {
        Some(
            StockDrainPitySummary {
                progress_by_level: summarize_stock_drain_columns(samples, SampleColumn::Pity),
                used_by_level: summarize_stock_drain_columns(samples, SampleColumn::PityUsed),
            },
        )
    } else {
        None
    };
    StockDrainSummary { pets_by_level, pity }
}

/// The names `prefix` followed by the numerals `first`, `first + 1`, ..., `count` of them.
pub open spec fn numbered_names(prefix: Seq<char>, first: int, count: nat) -> Seq<Seq<char>> {
    Seq::new(count, |i: int| prefix + decimal((first + i) as nat))
}

/// Each name preceded by a comma.
pub open spec fn comma_names(names: Seq<Seq<char>>) -> Seq<char>
    decreases names.len(),
{
    if names.len() == 0 {
        Seq::empty()
    } else {
        comma_names(names.drop_last()) + ","@ + names.last()
    }
}

/// One more numbered name is the next numeral after the prefix.
proof fn lemma_numbered_names_push(prefix: Seq<char>, first: int, count: nat)
    ensures
        numbered_names(prefix, first, count + 1) == numbered_names(prefix, first, count).push(
            prefix + decimal((first + count) as nat),
        ),
{
    assert(numbered_names(prefix, first, count + 1) =~= numbered_names(prefix, first, count).push(
        prefix + decimal((first + count) as nat),
    ));
}

/// One more name adds a comma and the name.
proof fn lemma_comma_names_push(names: Seq<Seq<char>>, name: Seq<char>)
    ensures
        comma_names(names.push(name)) == comma_names(names) + ","@ + name,
{
    assert(names.push(name).drop_last() =~= names);
}

/// The comma-separated names of `count` numbered names, the numerals being single digits.
proof fn lemma_digit_names(prefix: Seq<char>, first: int, count: nat)
    requires
        1 <= first,
        first + count <= 10,
    ensures
        comma_names(numbered_names(prefix, first, count)) == (if count == 0 {
            Seq::<char>::empty()
        } else {
            comma_names(numbered_names(prefix, first, (count - 1) as nat)) + ","@ + prefix + seq![
                digit_char(first + count - 1),
            ]
        }),
{
    if count > 0 {
        let c = (count - 1) as nat;
        lemma_numbered_names_push(prefix, first, c);
        lemma_comma_names_push(numbered_names(prefix, first, c), prefix + decimal((first + c) as nat));
        assert(decimal((first + c) as nat) == seq![digit_char(first + c)]);
        assert(numbered_names(prefix, first, count) == numbered_names(prefix, first, c).push(
            prefix + decimal((first + c) as nat),
        ));
        assert(comma_names(numbered_names(prefix, first, count)) =~= comma_names(
            numbered_names(prefix, first, c),
        ) + ","@ + prefix + seq![digit_char(first + count - 1)]);
    } else {
        assert(numbered_names(prefix, first, 0) =~= Seq::<Seq<char>>::empty());
    }
}

/// The header literals are the trial column and the numbered names joined by commas.
proof fn lemma_header_names()
    ensures
        "trial,level1,level2,level3,level4,level5,level6,level7"@ == "trial"@ + comma_names(
            numbered_names("level"@, 1, 7),
        ),
        ",pity2,pity3,pity4,pity5,pity6,pity7,pity_used2,pity_used3,pity_used4,pity_used5,pity_used6,pity_used7"@
            == comma_names(numbered_names("pity"@, 2, 6)) + comma_names(
            numbered_names("pity_used"@, 2, 6),
        ),
{
    reveal_strlit("trial,level1,level2,level3,level4,level5,level6,level7");
    reveal_strlit(
        ",pity2,pity3,pity4,pity5,pity6,pity7,pity_used2,pity_used3,pity_used4,pity_used5,pity_used6,pity_used7",
    );
    reveal_strlit("trial");
    reveal_strlit("level");
    reveal_strlit("pity");
    reveal_strlit("pity_used");
    reveal_strlit(",");
    lemma_digit_names("level"@, 1, 0);
    lemma_digit_names("level"@, 1, 1);
    lemma_digit_names("level"@, 1, 2);
    lemma_digit_names("level"@, 1, 3);
    lemma_digit_names("level"@, 1, 4);
    lemma_digit_names("level"@, 1, 5);
    lemma_digit_names("level"@, 1, 6);
    lemma_digit_names("level"@, 1, 7);
    lemma_digit_names("pity"@, 2, 0);
    lemma_digit_names("pity"@, 2, 1);
    lemma_digit_names("pity"@, 2, 2);
    lemma_digit_names("pity"@, 2, 3);
    lemma_digit_names("pity"@, 2, 4);
    lemma_digit_names("pity"@, 2, 5);
    lemma_digit_names("pity"@, 2, 6);
    lemma_digit_names("pity_used"@, 2, 0);
    lemma_digit_names("pity_used"@, 2, 1);
    lemma_digit_names("pity_used"@, 2, 2);
    lemma_digit_names("pity_used"@, 2, 3);
    lemma_digit_names("pity_used"@, 2, 4);
    lemma_digit_names("pity_used"@, 2, 5);
    lemma_digit_names("pity_used"@, 2, 6);
    assert("trial,level1,level2,level3,level4,level5,level6,level7"@ =~= "trial"@ + comma_names(
        numbered_names("level"@, 1, 7),
    ));
    assert(",pity2,pity3,pity4,pity5,pity6,pity7,pity_used2,pity_used3,pity_used4,pity_used5,pity_used6,pity_used7"@
        =~= comma_names(numbered_names("pity"@, 2, 6)) + comma_names(
        numbered_names("pity_used"@, 2, 6),
    ));
}

/// The sample value a stock-drain column name stands for: `levelN` the pets
/// of level N (1-7), `pityN` the pity progress towards level N (2-7),
/// `pity_usedN` the pity redemptions of level N (2-7).
pub open spec fn named_value(name: Seq<char>, sample: StockDrainTrialResult) -> Option<usize> {
    if name.len() == 6 && name.take(5) == "level"@ && is_digit(name[5]) && 1 <= digit_value(name[5])
        <= 7 {
        Some(sample.pets@[digit_value(name[5]) - 1])
    } else if name.len() == 5 && name.take(4) == "pity"@ && is_digit(name[4]) && 2 <= digit_value(
        name[4],
    ) <= 7 {
        Some(sample.pity@[digit_value(name[4]) - 2])
    } else if name.len() == 10 && name.take(9) == "pity_used"@ && is_digit(name[9]) && 2
        <= digit_value(name[9]) <= 7 {
        Some(sample.pity_used@[digit_value(name[9]) - 2])
    } else {
        None
    }
}

/// Joining two lists of names.
proof fn lemma_comma_names_concat(a: Seq<Seq<char>>, b: Seq<Seq<char>>)
    ensures
        comma_names(a + b) == comma_names(a) + comma_names(b),
    decreases b.len(),
{
    if b.len() == 0 {
        assert(a + b =~= a);
        assert(comma_names(a) + comma_names(b) =~= comma_names(a));
    } else {
        lemma_comma_names_concat(a, b.drop_last());
        assert((a + b).drop_last() =~= a + b.drop_last());
        assert((a + b).last() == b.last());
        assert(comma_names(a + b) =~= comma_names(a) + comma_names(b));
    }
}

/// Values preceded by commas are their numerals preceded by commas.
proof fn lemma_comma_values_names(s: Seq<usize>)
    ensures
        comma_values(s) == comma_names(s.map_values(|v: usize| decimal(v as nat))),
    decreases s.len(),
{
    if s.len() > 0 {
        lemma_comma_values_names(s.drop_last());
        assert(s.map_values(|v: usize| decimal(v as nat)).drop_last() =~= s.drop_last().map_values(
            |v: usize| decimal(v as nat),
        ));
    } else {
        assert(s.map_values(|v: usize| decimal(v as nat)) =~= Seq::<Seq<char>>::empty());
    }
}

/// A first name followed by comma-preceded names splits back into the names,
/// when none holds a comma.
proof fn lemma_split_names(first: Seq<char>, rest: Seq<Seq<char>>)
    requires
        !first.contains(','),
        forall|i: int| 0 <= i < rest.len() ==> !(#[trigger] rest[i]).contains(','),
    ensures
        split_commas(first + comma_names(rest)) == seq![first] + rest,
    decreases rest.len(),
{
    reveal_strlit(",");
    if rest.len() == 0 {
        assert(first + comma_names(rest) =~= first);
        lemma_split_without_commas(first);
        assert(seq![first] + rest =~= seq![first]);
    } else {
        let dl = rest.drop_last();
        lemma_split_names(first, dl);
        let prev = first + comma_names(dl);
        assert(first + comma_names(rest) =~= prev.push(',') + rest.last());
        lemma_split_at_comma(prev, rest.last());
        assert(!rest[rest.len() - 1].contains(','));
        lemma_split_without_commas(rest.last());
        assert(seq![first] + rest =~= seq![first] + dl + seq![rest.last()]);
    }
}

/// A numeral holds no comma.
proof fn lemma_numeral_without_commas(n: nat)
    ensures
        !decimal(n).contains(','),
{
    lemma_decimal_digits(n);
    if decimal(n).contains(',') {
        let i = choose|i: int| 0 <= i < decimal(n).len() && decimal(n)[i] == ',';
        assert(is_digit(decimal(n)[i]));
    }
}

/// Every column of the stock-drain CSV carries the value its header names: cut
/// at its commas, the header and a row have as many cells (8, or 20 with pity
/// enabled); the first column is `trial` and holds the trial number, counted
/// from one; every other header cell names a field of the sample (pets of a
/// level, pity progress or redemptions towards a level) and the row's cell in
/// that column is the numeral of that field.
pub proof fn lemma_csv_header_names_row(index: int, sample: StockDrainTrialResult, enable_pity: bool)
    requires
        0 <= index,
    ensures
        ({
            let names = split_commas(spec_stock_drain_csv_header(enable_pity));
            let cells = split_commas(spec_stock_drain_csv_row(index, sample, enable_pity));
            &&& names.len() == cells.len()
            &&& names.len() == if enable_pity {
                20int
            } else {
                8int
            }
            &&& names[0] == "trial"@
            &&& cells[0] == decimal((index + 1) as nat)
            &&& forall|k: int|
                1 <= k < names.len() ==> (#[trigger] named_value(names[k], sample) matches Some(v)
                    && cells[k] == decimal(v as nat))
        }),
{
    reveal_strlit("level");
    reveal_strlit("pity");
    reveal_strlit("pity_used");
    reveal_strlit("trial");
    lemma_header_names();
    let levels = numbered_names("level"@, 1, 7);
    let pities = numbered_names("pity"@, 2, 6);
    let useds = numbered_names("pity_used"@, 2, 6);
    let tail: Seq<Seq<char>> = if enable_pity {
        pities + useds
    } else {
        Seq::empty()
    };
    let all = levels + tail;
    lemma_comma_names_concat(pities, useds);
    lemma_comma_names_concat(levels, tail);
    assert(spec_stock_drain_csv_header(enable_pity) == "trial"@ + comma_names(all)) by {
        if !enable_pity {
            assert(comma_names(tail) =~= Seq::<char>::empty());
            assert("trial"@ + comma_names(levels) + Seq::<char>::empty() =~= "trial"@ + comma_names(levels));
        }
        assert(spec_stock_drain_csv_header(enable_pity) =~= "trial"@ + comma_names(all));
    }
    assert forall|i: int| 0 <= i < all.len() implies !(#[trigger] all[i]).contains(',') by {
        let n: nat = if i < 7 {
            (i + 1) as nat
        } else if i < 13 {
            (i - 5) as nat
        } else {
            (i - 11) as nat
        };
        lemma_numeral_without_commas(n);
        if all[i].contains(',') {
            let j = choose|j: int| 0 <= j < all[i].len() && all[i][j] == ',';
            if i < 7 {
                assert(all[i] == "level"@ + decimal(n));
                if j >= 5 {
                    assert(decimal(n)[j - 5] == ',');
                }
            } else if i < 13 {
                assert(all[i] == "pity"@ + decimal(n));
                if j >= 4 {
                    assert(decimal(n)[j - 4] == ',');
                }
            } else {
                assert(all[i] == "pity_used"@ + decimal(n));
                if j >= 9 {
                    assert(decimal(n)[j - 9] == ',');
                }
            }
        }
    }
    assert(!"trial"@.contains(',')) by {
        if "trial"@.contains(',') {
            let j = choose|j: int| 0 <= j < "trial"@.len() && "trial"@[j] == ',';
        }
    }
    lemma_split_names("trial"@, all);
    let names = split_commas(spec_stock_drain_csv_header(enable_pity));
    assert(names == seq!["trial"@] + all);

    let dec = |v: usize| decimal(v as nat);
    let vals: Seq<usize> = sample.pets@ + if enable_pity {
        sample.pity@ + sample.pity_used@
    } else {
        Seq::empty()
    };
    let cellv = vals.map_values(dec);
    lemma_comma_values_names(sample.pets@);
    lemma_comma_values_names(sample.pity@);
    lemma_comma_values_names(sample.pity_used@);
    lemma_comma_values_names(vals);
    assert(comma_values(vals) == comma_values(sample.pets@) + if enable_pity {
        comma_values(sample.pity@) + comma_values(sample.pity_used@)
    } else {
        Seq::<char>::empty()
    }) by {
        let pm = sample.pets@.map_values(dec);
        let qm = sample.pity@.map_values(dec);
        let um = sample.pity_used@.map_values(dec);
        if enable_pity {
            assert(cellv =~= pm + (qm + um));
            lemma_comma_names_concat(qm, um);
            lemma_comma_names_concat(pm, qm + um);
        } else {
            assert(cellv =~= pm);
            assert(comma_values(sample.pets@) + Seq::<char>::empty() =~= comma_values(sample.pets@));
        }
    }
    assert(spec_stock_drain_csv_row(index, sample, enable_pity) =~= decimal((index + 1) as nat)
        + comma_names(cellv));
    assert forall|i: int| 0 <= i < cellv.len() implies !(#[trigger] cellv[i]).contains(',') by {
        lemma_numeral_without_commas(vals[i] as nat);
    }
    lemma_numeral_without_commas((index + 1) as nat);
    lemma_split_names(decimal((index + 1) as nat), cellv);
    let cells = split_commas(spec_stock_drain_csv_row(index, sample, enable_pity));
    assert(cells == seq![decimal((index + 1) as nat)] + cellv);

    assert forall|k: int| 1 <= k < names.len() implies (#[trigger] named_value(names[k], sample)
        matches Some(v) && cells[k] == decimal(v as nat)) by {
        let i = k - 1;
        assert(names[k] == all[i]);
        assert(cells[k] == cellv[i]);
        if i < 7 {
            let n = (i + 1) as nat;
            lemma_digit_char(n);
            assert(decimal(n) == seq![digit_char(n as int)]);
            assert(all[i] == "level"@ + decimal(n));
            assert(all[i].take(5) =~= "level"@);
            assert(all[i][5] == digit_char(n as int));
            assert(vals[i] == sample.pets@[i]);
        } else if i < 13 {
            let n = (i - 5) as nat;
            lemma_digit_char(n);
            assert(decimal(n) == seq![digit_char(n as int)]);
            assert(all[i] == pities[i - 7]);
            assert(all[i] == "pity"@ + decimal(n));
            assert(all[i].take(4) =~= "pity"@);
            assert(all[i][4] == digit_char(n as int));
            assert(vals[i] == sample.pity@[i - 7]);
        } else {
            let n = (i - 11) as nat;
            lemma_digit_char(n);
            assert(decimal(n) == seq![digit_char(n as int)]);
            assert(all[i] == useds[i - 13]);
            assert(all[i] == "pity_used"@ + decimal(n));
            assert(all[i].take(9) =~= "pity_used"@);
            assert(all[i][9] == digit_char(n as int));
            assert(vals[i] == sample.pity_used@[i - 13]);
        }
    }
}

} // verus!
