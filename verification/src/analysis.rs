//! The comparison of the strategies over many cases, and the texts of the report.

use vstd::prelude::*;
use vstd::string::StrSliceExecFns;

use crate::report::Outcome;
use crate::text::{decimal, push_decimal};
use crate::workload::{pool_size, total_possible};

verus! {

/// The figures of one case: those of all strategies, and whether the selective strategy was
/// faster than the one that takes the distinct values of every column.
#[derive(Debug)]
pub struct CaseResult {
    pub name: String,
    pub outcomes: Vec<Outcome>,
    pub selective_faster: bool,
}

impl CaseResult {
    /// Whether there are figures of all strategies.
    pub open spec fn complete(self) -> bool {
        self.outcomes.len() >= 4
    }

    /// The figures of the strategy that joins the dictionaries.
    pub open spec fn concat(self) -> Outcome {
        self.outcomes[0]
    }

    /// The figures of the strategy that takes the distinct values.
    pub open spec fn dedup(self) -> Outcome {
        self.outcomes[1]
    }

    /// The figures of the selective strategy.
    pub open spec fn selective(self) -> Outcome {
        self.outcomes[3]
    }
}

/// The counts and sums of the comparison.
#[derive(Debug, Clone, Copy, PartialEq, Eq, Structural)]
pub struct Analysis {
    pub count: usize,
    pub cases_dedup_saves_space: usize,
    pub cases_selective_saves_space: usize,
    pub total_space_saved_dedup: u128,
    pub total_space_saved_selective: u128,
    pub total_ipc_baseline: u128,
    pub selective_matches_dedup_space: usize,
    pub selective_faster_than_dedup: usize,
    pub concat_widens: usize,
    pub dedup_widens: usize,
    pub selective_widens: usize,
    pub concat_native_fb: usize,
    pub dedup_native_fb: usize,
    pub selective_native_fb: usize,
}

/// How many bytes a shorter file saves.
pub open spec fn saved(baseline: nat, size: nat) -> nat {
    if baseline > size {
        (baseline - size) as nat
    } else {
        0
    }
}

/// One for yes, none for no.
pub open spec fn one_if(b: bool) -> nat {
    if b {
        1
    } else {
        0
    }
}

/// What one case adds to the counts and sums.
pub struct Share {
    pub count: nat,
    pub dedup_saves: nat,
    pub selective_saves: nat,
    pub saved_dedup: nat,
    pub saved_selective: nat,
    pub baseline: nat,
    pub selective_matches: nat,
    pub selective_faster: nat,
    pub concat_widens: nat,
    pub dedup_widens: nat,
    pub selective_widens: nat,
    pub concat_native: nat,
    pub dedup_native: nat,
    pub selective_native: nat,
}

/// Nothing.
pub open spec fn no_share() -> Share {
    Share {
        count: 0,
        dedup_saves: 0,
        selective_saves: 0,
        saved_dedup: 0,
        saved_selective: 0,
        baseline: 0,
        selective_matches: 0,
        selective_faster: 0,
        concat_widens: 0,
        dedup_widens: 0,
        selective_widens: 0,
        concat_native: 0,
        dedup_native: 0,
        selective_native: 0,
    }
}

/// What one case adds: nothing, where a strategy has no figures.
pub open spec fn share_of(c: CaseResult) -> Share {
    if !c.complete() {
        no_share()
    } else {
        let base = c.concat().ipc_size_bytes as nat;
        let dedup_saved = saved(base, c.dedup().ipc_size_bytes as nat);
        let selective_saved = saved(base, c.selective().ipc_size_bytes as nat);
        Share {
            count: 1,
            dedup_saves: one_if(dedup_saved > 0),
            selective_saves: one_if(selective_saved > 0),
            saved_dedup: dedup_saved,
            saved_selective: selective_saved,
            baseline: base,
            selective_matches: one_if(c.selective().ipc_size_bytes <= c.dedup().ipc_size_bytes),
            selective_faster: one_if(c.selective_faster),
            concat_widens: one_if(c.concat().key_widened),
            dedup_widens: one_if(c.dedup().key_widened),
            selective_widens: one_if(c.selective().key_widened),
            concat_native: one_if(c.concat().native_fallback),
            dedup_native: one_if(c.dedup().native_fallback),
            selective_native: one_if(c.selective().native_fallback),
        }
    }
}

/// Two shares together.
pub open spec fn plus(a: Share, b: Share) -> Share {
    Share {
        count: a.count + b.count,
        dedup_saves: a.dedup_saves + b.dedup_saves,
        selective_saves: a.selective_saves + b.selective_saves,
        saved_dedup: a.saved_dedup + b.saved_dedup,
        saved_selective: a.saved_selective + b.saved_selective,
        baseline: a.baseline + b.baseline,
        selective_matches: a.selective_matches + b.selective_matches,
        selective_faster: a.selective_faster + b.selective_faster,
        concat_widens: a.concat_widens + b.concat_widens,
        dedup_widens: a.dedup_widens + b.dedup_widens,
        selective_widens: a.selective_widens + b.selective_widens,
        concat_native: a.concat_native + b.concat_native,
        dedup_native: a.dedup_native + b.dedup_native,
        selective_native: a.selective_native + b.selective_native,
    }
}

/// What all cases add up to.
pub open spec fn total_share(cases: Seq<CaseResult>) -> Share
    decreases cases.len(),
{
    if cases.len() == 0 {
        no_share()
    } else {
        plus(total_share(cases.drop_last()), share_of(cases.last()))
    }
}

impl Analysis {
    /// Whether the counts and sums are a share.
    pub open spec fn is_share(self, s: Share) -> bool {
        &&& self.count == s.count
        &&& self.cases_dedup_saves_space == s.dedup_saves
        &&& self.cases_selective_saves_space == s.selective_saves
        &&& self.total_space_saved_dedup == s.saved_dedup
        &&& self.total_space_saved_selective == s.saved_selective
        &&& self.total_ipc_baseline == s.baseline
        &&& self.selective_matches_dedup_space == s.selective_matches
        &&& self.selective_faster_than_dedup == s.selective_faster
        &&& self.concat_widens == s.concat_widens
        &&& self.dedup_widens == s.dedup_widens
        &&& self.selective_widens == s.selective_widens
        &&& self.concat_native_fb == s.concat_native
        &&& self.dedup_native_fb == s.dedup_native
        &&& self.selective_native_fb == s.selective_native
    }
}

/// No count exceeds the number of cases, and no sum what so many files can have.
proof fn lemma_total_bounds(cases: Seq<CaseResult>)
    ensures
        ({
            let t = total_share(cases);
            let n = cases.len();
            &&& t.count <= n
            &&& t.dedup_saves <= n
            &&& t.selective_saves <= n
            &&& t.selective_matches <= n
            &&& t.selective_faster <= n
            &&& t.concat_widens <= n
            &&& t.dedup_widens <= n
            &&& t.selective_widens <= n
            &&& t.concat_native <= n
            &&& t.dedup_native <= n
            &&& t.selective_native <= n
            &&& t.baseline <= n * 0xffff_ffff_ffff_ffff
            &&& t.saved_dedup <= n * 0xffff_ffff_ffff_ffff
            &&& t.saved_selective <= n * 0xffff_ffff_ffff_ffff
        }),
    decreases cases.len(),
{
    if cases.len() > 0 {
        lemma_total_bounds(cases.drop_last());
    }
}

fn bump(n: usize, b: bool) -> (r: usize)
    requires
        n < usize::MAX,
    ensures
        r == n + one_if(b),
{
    if b {
        n + 1
    } else {
        n
    }
}

fn saving(baseline: usize, size: usize) -> (r: usize)
    ensures
        r == saved(baseline as nat, size as nat),
{
    if baseline > size {
        baseline - size
    } else {
        0
    }
}

/// Compares the strategies over all cases. Cases without figures of all strategies are left out.
pub fn analyze(cases: &Vec<CaseResult>) -> (r: Analysis)
    ensures
        r.is_share(total_share(cases@)),
{
    let mut a = Analysis {
        count: 0,
        cases_dedup_saves_space: 0,
        cases_selective_saves_space: 0,
        total_space_saved_dedup: 0,
        total_space_saved_selective: 0,
        total_ipc_baseline: 0,
        selective_matches_dedup_space: 0,
        selective_faster_than_dedup: 0,
        concat_widens: 0,
        dedup_widens: 0,
        selective_widens: 0,
        concat_native_fb: 0,
        dedup_native_fb: 0,
        selective_native_fb: 0,
    };
    let mut i: usize = 0;
    assert(cases@.take(0) =~= Seq::<CaseResult>::empty());
    while i < cases.len()
        invariant
            i <= cases.len(),
            a.is_share(total_share(cases@.take(i as int))),
        decreases cases.len() - i,
    {
        let case = &cases[i];
        proof {
            assert(cases@.take(i + 1).drop_last() =~= cases@.take(i as int));
            lemma_total_bounds(cases@.take(i as int));
            assert(i * 0xffff_ffff_ffff_ffff + 0xffff_ffff_ffff_ffff <= u128::MAX) by (nonlinear_arith)
                requires
                    i < 0xffff_ffff_ffff_ffff,
            ;
        }
        if case.outcomes.len() >= 4 {
            let concat = case.outcomes[0];
            let dedup = case.outcomes[1];
            let selective = case.outcomes[3];
            let dedup_saved: usize = saving(concat.ipc_size_bytes, dedup.ipc_size_bytes);
            let selective_saved: usize = saving(concat.ipc_size_bytes, selective.ipc_size_bytes);
            a = Analysis {
                count: a.count + 1,
                cases_dedup_saves_space: bump(a.cases_dedup_saves_space, dedup_saved > 0),
                cases_selective_saves_space: bump(
                    a.cases_selective_saves_space,
                    selective_saved > 0,
                ),
                total_space_saved_dedup: a.total_space_saved_dedup + dedup_saved as u128,
                total_space_saved_selective: a.total_space_saved_selective
                    + selective_saved as u128,
                total_ipc_baseline: a.total_ipc_baseline + concat.ipc_size_bytes as u128,
                selective_matches_dedup_space: bump(
                    a.selective_matches_dedup_space,
                    selective.ipc_size_bytes <= dedup.ipc_size_bytes,
                ),
                selective_faster_than_dedup: bump(
                    a.selective_faster_than_dedup,
                    case.selective_faster,
                ),
                concat_widens: bump(a.concat_widens, concat.key_widened),
                dedup_widens: bump(a.dedup_widens, dedup.key_widened),
                selective_widens: bump(a.selective_widens, selective.key_widened),
                concat_native_fb: bump(a.concat_native_fb, concat.native_fallback),
                dedup_native_fb: bump(a.dedup_native_fb, dedup.native_fallback),
                selective_native_fb: bump(a.selective_native_fb, selective.native_fallback),
            };
        }
        i += 1;
    }
    assert(cases@.take(i as int) =~= cases@);
    a
}

/// Whether the selective strategy stands out in a case: it saves more than a thousand bytes, or
/// it is the only one of the two that widens a key type. The number of bytes it saves comes with
/// it, and is negative where it costs bytes.
pub fn notable(case: &CaseResult) -> (r: Option<i128>)
    ensures
        r == (if case.complete() && (case.concat().ipc_size_bytes
            - case.selective().ipc_size_bytes > 1000 || case.concat().key_widened
            != case.selective().key_widened) {
            Some((case.concat().ipc_size_bytes - case.selective().ipc_size_bytes) as i128)
        } else {
            None
        }),
{
    if case.outcomes.len() < 4 {
        return None;
    }
    let concat = case.outcomes[0];
    let selective = case.outcomes[3];
    let selective_saved: i128 = concat.ipc_size_bytes as i128 - selective.ipc_size_bytes as i128;
    if selective_saved > 1000 || concat.key_widened != selective.key_widened {
        Some(selective_saved)
    } else {
        None
    }
}

// ---- texts ---------------------------------------------------------------------------------

/// The difference of two sizes: with its sign, or four characters for none.
pub open spec fn delta_chars(size: nat, baseline: nat) -> Seq<char> {
    if size == baseline {
        "   0"@
    } else if size > baseline {
        "+"@ + decimal((size - baseline) as nat)
    } else {
        "-"@ + decimal((baseline - size) as nat)
    }
}

/// The difference of two sizes, as it is shown.
pub fn delta_text(size: usize, baseline: usize) -> (r: String)
    ensures
        r@ == delta_chars(size as nat, baseline as nat),
{
    let mut s: String = String::new();
    if size == baseline {
        s.push_str("   0");
        assert(s@ =~= "   0"@);
    } else if size > baseline {
        s.push_str("+");
        push_decimal(&mut s, (size - baseline) as u64);
        assert(s@ =~= "+"@ + decimal((size - baseline) as nat));
    } else {
        s.push_str("-");
        push_decimal(&mut s, (baseline - size) as u64);
        assert(s@ =~= "-"@ + decimal((baseline - size) as nat));
    }
    s
}

/// A name without commas.
pub open spec fn csv_chars(name: Seq<char>) -> Seq<char> {
    name.map_values(
        |c: char|
            if c == ',' {
                ';'
            } else {
                c
            },
    )
}

/// A name for a table whose columns are parted by commas: semicolons take the commas' places.
pub fn csv_name(name: &str) -> (r: String)
    ensures
        r@ == csv_chars(name@),
{
    let mut s: String = String::new();
    let n: usize = name.unicode_len();
    let mut i: usize = 0;
    while i < n
        invariant
            i <= n,
            n == name@.len(),
            s@ == csv_chars(name@).take(i as int),
        decreases n - i,
    {
        let c: char = name.get_char(i);
        proof {
            assert(csv_chars(name@).take(i + 1) =~= csv_chars(name@).take(i as int).push(
                csv_chars(name@)[i as int],
            ));
        }
        if c == ',' {
            s.push(';');
        } else {
            s.push(c);
        }
        i += 1;
    }
    assert(csv_chars(name@).take(i as int) =~= csv_chars(name@));
    s
}

/// The largest pool of values that a case of the matrix may have.
pub const LARGEST_POOL: usize = 100_000;

/// Whether a case of the matrix is left out because its pool of values would be too large.
pub fn left_out(num_batches: usize, per_batch_cardinality: usize, shared_count: usize) -> (r: bool)
    requires
        shared_count <= per_batch_cardinality,
    ensures
        r == (pool_size(
            num_batches as nat,
            per_batch_cardinality as nat,
            shared_count as nat,
        ) > 100_000),
{
    match total_possible(num_batches, per_batch_cardinality, shared_count) {
        Some(n) => n > LARGEST_POOL,
        None => true,
    }
}

/// The name of a case of the matrix.
pub fn case_name(types: &str, num_batches: usize, cardinality: usize, percent: u64) -> (r: String)
    ensures
        r@ == types@ + " nb="@ + decimal(num_batches as nat) + " card="@ + decimal(
            cardinality as nat,
        ) + " ovl="@ + decimal(percent as nat) + "%"@,
{
    let mut s: String = String::new();
    s.push_str(types);
    s.push_str(" nb=");
    push_decimal(&mut s, num_batches as u64);
    s.push_str(" card=");
    push_decimal(&mut s, cardinality as u64);
    s.push_str(" ovl=");
    push_decimal(&mut s, percent);
    s.push_str("%");
    assert(s@ =~= types@ + " nb="@ + decimal(num_batches as nat) + " card="@ + decimal(
        cardinality as nat,
    ) + " ovl="@ + decimal(percent as nat) + "%"@);
    s
}

/// The name of a case with a payload's batches: what is counted besides batches and rows, if
/// anything, comes last.
pub fn payload_name(
    payload: &str,
    num_batches: usize,
    rows: usize,
    counted: Option<(&str, usize)>,
) -> (r: String)
    ensures
        r@ == payload@ + " nb="@ + decimal(num_batches as nat) + " rows="@ + decimal(rows as nat)
            + (match counted {
            Some((what, n)) => " "@ + what@ + "="@ + decimal(n as nat),
            None => seq![],
        }),
{
    let mut s: String = String::new();
    s.push_str(payload);
    s.push_str(" nb=");
    push_decimal(&mut s, num_batches as u64);
    s.push_str(" rows=");
    push_decimal(&mut s, rows as u64);
    let ghost head = payload@ + " nb="@ + decimal(num_batches as nat) + " rows="@ + decimal(
        rows as nat,
    );
    assert(s@ =~= head);
    match counted {
        Some((what, n)) => {
            s.push_str(" ");
            s.push_str(what);
            s.push_str("=");
            push_decimal(&mut s, n as u64);
            assert(s@ =~= head + (" "@ + what@ + "="@ + decimal(n as nat)));
        },
        None => {
            assert(s@ =~= head + seq![]);
        },
    }
    s
}

} // verus!
