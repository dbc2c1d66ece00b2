//! How test counts are shown.
use crate::number;
use vstd::prelude::*;
use vstd::string::*;

verus! {

/// The tests that passed and, where there are any, those that were ignored or filtered out.
pub open spec fn counts_text(passed: nat, ignored: nat, filtered_out: nat) -> Seq<char> {
    number::decimal(passed) + " passed"@ + (if ignored > 0 {
        ", "@ + number::decimal(ignored) + " ignored"@
    } else {
        seq![]
    }) + (if filtered_out > 0 {
        ", "@ + number::decimal(filtered_out) + " filtered out"@
    } else {
        seq![]
    })
}

/// Appends the counts of a test run.
pub fn append_counts(out: &mut String, passed: usize, ignored: usize, filtered_out: usize)
    ensures
        final(out)@ == old(out)@ + counts_text(
            passed as nat,
            ignored as nat,
            filtered_out as nat,
        ),
{
    let ghost start = out@;
    number::append_decimal(out, passed);
    out.append(" passed");
    if ignored > 0 {
        out.append(", ");
        number::append_decimal(out, ignored);
        out.append(" ignored");
    }
    if filtered_out > 0 {
        out.append(", ");
        number::append_decimal(out, filtered_out);
        out.append(" filtered out");
    }
    assert(out@ == start + counts_text(passed as nat, ignored as nat, filtered_out as nat));
}

/// `n` of something that has a name for one and a name for several.
pub open spec fn quantity(n: nat, one: Seq<char>, several: Seq<char>) -> Seq<char> {
    number::decimal(n) + (if n == 1 {
        one
    } else {
        several
    })
}

/// Appends a number and what it counts.
pub fn append_quantity(out: &mut String, n: usize, one: &str, several: &str)
    ensures
        final(out)@ == old(out)@ + quantity(n as nat, one@, several@),
{
    let ghost start = out@;
    number::append_decimal(out, n);
    out.append(
        if n == 1 {
            one
        } else {
            several
        },
    );
    assert(out@ == start + quantity(n as nat, one@, several@));
}

} // verus!
