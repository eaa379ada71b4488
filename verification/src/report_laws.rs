//! What the counts and sums of the comparison are, and how numbers are written.

use vstd::prelude::*;

use crate::analysis::{csv_chars, delta_chars, total_share, CaseResult};
use crate::model::sum_of;
use crate::text::{decimal, digit, is_digit};

verus! {

/// Each count of the comparison is the number of the cases with figures of all four strategies of
/// which what is counted holds.
pub proof fn counts_are_numbers_of_cases(cases: Seq<CaseResult>)
    ensures
        ({
            let t = total_share(cases);
            let all = |c: CaseResult| c.outcomes.len() >= 4;
            &&& t.count == cases.filter(all).len()
            &&& t.dedup_saves == cases.filter(
                |c: CaseResult|
                    all(c) && c.outcomes[1].ipc_size_bytes < c.outcomes[0].ipc_size_bytes,
            ).len()
            &&& t.selective_saves == cases.filter(
                |c: CaseResult|
                    all(c) && c.outcomes[3].ipc_size_bytes < c.outcomes[0].ipc_size_bytes,
            ).len()
            &&& t.selective_matches == cases.filter(
                |c: CaseResult|
                    all(c) && c.outcomes[3].ipc_size_bytes <= c.outcomes[1].ipc_size_bytes,
            ).len()
            &&& t.selective_faster == cases.filter(
                |c: CaseResult| all(c) && c.selective_faster,
            ).len()
            &&& t.concat_widens == cases.filter(
                |c: CaseResult| all(c) && c.outcomes[0].key_widened,
            ).len()
            &&& t.dedup_widens == cases.filter(
                |c: CaseResult| all(c) && c.outcomes[1].key_widened,
            ).len()
            &&& t.selective_widens == cases.filter(
                |c: CaseResult| all(c) && c.outcomes[3].key_widened,
            ).len()
            &&& t.concat_native == cases.filter(
                |c: CaseResult| all(c) && c.outcomes[0].native_fallback,
            ).len()
            &&& t.dedup_native == cases.filter(
                |c: CaseResult| all(c) && c.outcomes[1].native_fallback,
            ).len()
            &&& t.selective_native == cases.filter(
                |c: CaseResult| all(c) && c.outcomes[3].native_fallback,
            ).len()
        }),
    decreases cases.len(),
{
    reveal(Seq::filter);
    if cases.len() > 0 {
        counts_are_numbers_of_cases(cases.drop_last());
    }
}

/// How many bytes a case has where the dictionaries are joined; none without figures of all four
/// strategies.
pub open spec fn joined_bytes(c: CaseResult) -> nat {
    if c.outcomes.len() >= 4 {
        c.outcomes[0].ipc_size_bytes as nat
    } else {
        0
    }
}

/// By how many bytes the file of one of the strategies is shorter than where the dictionaries are
/// joined; none where it is longer, or without figures of all four strategies.
pub open spec fn bytes_less(c: CaseResult, strategy: int) -> nat {
    if c.outcomes.len() >= 4 && c.outcomes[strategy].ipc_size_bytes < c.outcomes[0].ipc_size_bytes {
        (c.outcomes[0].ipc_size_bytes - c.outcomes[strategy].ipc_size_bytes) as nat
    } else {
        0
    }
}

/// The sums of the comparison are those over all cases.
pub proof fn sums_go_over_all_cases(cases: Seq<CaseResult>)
    ensures
        total_share(cases).baseline == sum_of(cases.map_values(|c: CaseResult| joined_bytes(c))),
        total_share(cases).saved_dedup == sum_of(
            cases.map_values(|c: CaseResult| bytes_less(c, 1)),
        ),
        total_share(cases).saved_selective == sum_of(
            cases.map_values(|c: CaseResult| bytes_less(c, 3)),
        ),
    decreases cases.len(),
{
    let base = |c: CaseResult| joined_bytes(c);
    let dedup = |c: CaseResult| bytes_less(c, 1);
    let selective = |c: CaseResult| bytes_less(c, 3);
    if cases.len() > 0 {
        let before = cases.drop_last();
        sums_go_over_all_cases(before);
        assert(cases.map_values(base).drop_last() =~= before.map_values(base));
        assert(cases.map_values(dedup).drop_last() =~= before.map_values(dedup));
        assert(cases.map_values(selective).drop_last() =~= before.map_values(selective));
    }
}

/// The number that decimal digits stand for.
pub open spec fn value_of(s: Seq<char>) -> int
    decreases s.len(),
{
    if s.len() == 0 {
        0
    } else {
        10 * value_of(s.drop_last()) + (s.last() as int - '0' as int)
    }
}

/// A number is written in the digits that stand for it, and without a zero in front of them.
pub proof fn numbers_are_written_in_their_digits(n: nat)
    ensures
        value_of(decimal(n)) == n,
        decimal(n).len() >= 1,
        forall|i: int| 0 <= i < decimal(n).len() ==> is_digit(#[trigger] decimal(n)[i]),
        n > 0 ==> decimal(n)[0] != '0',
        n == 0 ==> decimal(n) == seq!['0'],
    decreases n,
{
    if n < 10 {
        assert(digit(n) as int == 48 + n);
        assert(value_of(Seq::<char>::empty()) == 0);
        assert(decimal(n).drop_last() =~= Seq::<char>::empty());
    } else {
        numbers_are_written_in_their_digits(n / 10);
        assert(decimal(n).drop_last() =~= decimal(n / 10));
        assert(digit(n % 10) as int == 48 + n % 10);
        assert(decimal(n)[0] == decimal(n / 10)[0]);
    }
}

/// A difference is shown with its sign in front of its digits.
pub proof fn differences_are_shown_with_their_signs(size: nat, baseline: nat)
    requires
        size != baseline,
    ensures
        ({
            let shown = delta_chars(size, baseline);
            let amount = value_of(shown.skip(1));
            &&& shown[0] == '+' || shown[0] == '-'
            &&& (if shown[0] == '+' {
                amount
            } else {
                -amount
            }) == size - baseline
        }),
{
    reveal_strlit("+");
    reveal_strlit("-");
    let d = if size > baseline {
        (size - baseline) as nat
    } else {
        (baseline - size) as nat
    };
    numbers_are_written_in_their_digits(d);
    assert(delta_chars(size, baseline).skip(1) =~= decimal(d));
}

/// A name in a table has no comma, is as long as the name, and is the name but for the commas.
pub proof fn names_in_tables_have_no_commas(name: Seq<char>)
    ensures
        csv_chars(name).len() == name.len(),
        !csv_chars(name).contains(','),
        forall|i: int|
            0 <= i < name.len() ==> #[trigger] csv_chars(name)[i] == name[i] || (name[i] == ','
                && csv_chars(name)[i] == ';'),
{
}

} // verus!
