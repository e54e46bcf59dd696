//! Exponent unpacking.

use vstd::arithmetic::power2::lemma2_to64;
use vstd::prelude::*;

use crate::ac3::bitstream::{BitReader, Cursor};
use crate::ac3::tables::NUM_BINS;

verus! {

/// The three differentials that a 7-bit group stands for.
pub open spec fn group_differentials(grp: int) -> Seq<int> {
    seq![grp / 25 - 2, (grp % 25) / 5 - 2, grp % 5 - 2]
}

/// The differentials of the next `n` groups.
pub open spec fn differentials(c: Cursor, n: nat) -> Seq<int>
    decreases n,
{
    if n == 0 {
        Seq::empty()
    } else {
        differentials(c, (n - 1) as nat) + group_differentials(groups_end(c, (n - 1) as nat).value(7))
    }
}

/// The cursor behind `n` groups.
pub open spec fn groups_end(c: Cursor, n: nat) -> Cursor
    decreases n,
{
    if n == 0 {
        c
    } else {
        groups_end(c, (n - 1) as nat).after(7)
    }
}

/// The absolute exponent that the first `k` differentials lead to.
pub open spec fn running_exponent(absexp: int, d: Seq<int>, k: nat) -> int
    decreases k,
{
    if k == 0 {
        absexp
    } else {
        running_exponent(absexp, d, (k - 1) as nat) + d[k - 1]
    }
}

/// An exponent limited to the valid range.
pub open spec fn clamp_exponent(e: int) -> u8 {
    if e < 0 {
        0
    } else if e > 24 {
        24
    } else {
        e as u8
    }
}

/// The exponents once the differentials `d` have been spread over them: each one
/// covers `grpsize` bins, from bin `skip` on, as far as there are bins.
pub open spec fn spread_exponents(
    out: Seq<u8>,
    absexp: int,
    d: Seq<int>,
    grpsize: int,
    skip: int,
) -> Seq<u8> {
    Seq::new(
        out.len(),
        |j: int|
            if skip <= j < skip + d.len() * grpsize {
                clamp_exponent(running_exponent(absexp, d, ((j - skip) / grpsize + 1) as nat))
            } else if j == 0 {
                clamp_exponent(absexp)
            } else {
                out[j]
            },
    )
}

proof fn lemma_running_prefix(absexp: int, d: Seq<int>, e: Seq<int>, k: nat)
    requires
        k <= d.len(),
    ensures
        running_exponent(absexp, d + e, k) == running_exponent(absexp, d, k),
    decreases k,
{
    if k > 0 {
        lemma_running_prefix(absexp, d, e, (k - 1) as nat);
        assert((d + e)[k - 1] == d[k - 1]);
    }
}

proof fn lemma_differentials_len(c: Cursor, n: nat)
    ensures
        differentials(c, n).len() == 3 * n,
    decreases n,
{
    if n > 0 {
        lemma_differentials_len(c, (n - 1) as nat);
    }
}

/// The bin that follows `count` exponents; the bins end at 256.
pub open spec fn next_bin(skip: int, count: int, grpsize: int) -> int {
    if skip >= 256 {
        skip
    } else if skip + count * grpsize >= 256 {
        256
    } else {
        skip + count * grpsize
    }
}

/// Cover the next `grpsize` bins with one exponent; returns the bin that follows.
fn put_exponent(
    out: &mut [u8; 256],
    e: i32,
    grpsize: usize,
    first: usize,
    Ghost(skip): Ghost<int>,
    Ghost(before): Ghost<Seq<u8>>,
    Ghost(absexp): Ghost<int>,
    Ghost(d): Ghost<Seq<int>>,
) -> (next: usize)
    requires
        d.len() > 0,
        0 <= skip,
        first == next_bin(skip, d.len() - 1, grpsize as int),
        old(out)@ == spread_exponents(before, absexp, d.drop_last(), grpsize as int, skip),
        e == running_exponent(absexp, d, d.len()),
        before.len() == 256,
    ensures
        next == next_bin(skip, d.len() as int, grpsize as int),
        final(out)@ == spread_exponents(before, absexp, d, grpsize as int, skip),
{
    let clamped: u8 = if e < 0 {
        0
    } else if e > 24 {
        24
    } else {
        e as u8
    };
    let ghost o = out@;
    let mut n: usize = 0;
    let mut idx: usize = first;
    while n < grpsize && idx < NUM_BINS
        invariant
            n <= grpsize,
            idx == first + n,
            first < 256 ==> idx <= 256,
            first >= 256 ==> n == 0,
            o.len() == 256,
            out@ == Seq::new(256, |j: int| if first <= j < idx { clamped } else { o[j] }),
        decreases grpsize - n,
    {
        out[idx] = clamped;
        idx = idx + 1;
        n = n + 1;
        assert(out@ =~= Seq::new(256, |j: int| if first <= j < idx { clamped } else { o[j] }));
    }
    proof {
        let pre = d.drop_last();
        assert(pre + seq![d.last()] =~= d);
        let g = grpsize as int;
        let count = d.len() - 1;
        assert(d.len() * g == count * g + g) by (nonlinear_arith)
            requires
                d.len() == count + 1,
        ;
        assert(0 <= count * g) by (nonlinear_arith)
            requires
                0 <= count,
                0 <= g,
        ;
        assert forall|j: int| 0 <= j < 256 implies #[trigger] out@[j] == spread_exponents(
            before,
            absexp,
            d,
            g,
            skip,
        )[j] by {
            if skip <= j < skip + count * g {
                let k = ((j - skip) / g + 1) as nat;
                assert(0 <= (j - skip) / g < count) by (nonlinear_arith)
                    requires
                        0 <= j - skip < count * g,
                        g > 0,
                ;
                lemma_running_prefix(absexp, pre, seq![d.last()], k);
            } else if skip + count * g <= j < skip + count * g + g {
                assert((j - skip) / g == count) by (nonlinear_arith)
                    requires
                        count * g <= j - skip < count * g + g,
                        g > 0,
                ;
            }
        }
        assert(out@ =~= spread_exponents(before, absexp, d, g, skip));
    }
    idx
}

/// Unpack grouped exponents into absolute values.
/// `skip` = 1 for channels (first exp is absolute), 0 for coupling.
pub fn unpack_exponents(
    br: &mut BitReader,
    out: &mut [u8; 256],
    absexp: i32,
    ngroups: usize,
    grpsize: usize,
    skip: usize,
)
    requires
        old(br).wf(),
        i32::MIN <= absexp - 6 * ngroups,
        absexp + 9 * ngroups <= i32::MAX,
    ensures
        final(br).wf(),
        final(br)@ == groups_end(old(br)@, ngroups as nat),
        final(out)@ == spread_exponents(
            old(out)@,
            absexp as int,
            differentials(old(br)@, ngroups as nat),
            grpsize as int,
            skip as int,
        ),
{
    let ghost before = out@;
    let ghost c = br@;
    let mut prevexp: i32 = absexp;
    out[0] = if absexp < 0 {
        0
    } else if absexp > 24 {
        24
    } else {
        absexp as u8
    };
    assert(out@ =~= spread_exponents(
        before,
        absexp as int,
        differentials(c, 0),
        grpsize as int,
        skip as int,
    ));
    let mut idx: usize = skip;
    assert(0 * (grpsize as int) == 0);
    let mut g: usize = 0;
    while g < ngroups
        invariant
            g <= ngroups,
            i32::MIN <= absexp - 6 * ngroups,
            absexp + 9 * ngroups <= i32::MAX,
            br.wf(),
            before.len() == 256,
            br@ == groups_end(c, g as nat),
            differentials(c, g as nat).len() == 3 * g,
            prevexp == running_exponent(absexp as int, differentials(c, g as nat), 3 * g as nat),
            absexp - 6 * g <= prevexp <= absexp + 9 * g,
            idx == next_bin(skip as int, 3 * g as int, grpsize as int),
            out@ == spread_exponents(
                before,
                absexp as int,
                differentials(c, g as nat),
                grpsize as int,
                skip as int,
            ),
        decreases ngroups - g,
    {
        let ghost d = differentials(c, g as nat);
        let grp: i32 = br.read(7) as i32;
        proof {
            lemma2_to64();
            lemma_differentials_len(c, (g + 1) as nat);
        }
        let d1: i32 = grp / 25 - 2;
        let d2: i32 = (grp % 25) / 5 - 2;
        let d3: i32 = grp % 5 - 2;
        let ghost e1 = d.push(d1 as int);
        let ghost e2 = e1.push(d2 as int);
        let ghost e3 = e2.push(d3 as int);
        proof {
            assert(e1.drop_last() =~= d);
            assert(e2.drop_last() =~= e1);
            assert(e3.drop_last() =~= e2);
            assert(e1 =~= d + seq![d1 as int]);
            assert(e2 =~= e1 + seq![d2 as int]);
            assert(e3 =~= e2 + seq![d3 as int]);
            lemma_running_prefix(absexp as int, d, seq![d1 as int], d.len());
            lemma_running_prefix(absexp as int, e1, seq![d2 as int], e1.len());
            lemma_running_prefix(absexp as int, e2, seq![d3 as int], e2.len());
            assert(differentials(c, (g + 1) as nat) =~= e3);
        }
        prevexp = prevexp + d1;
        idx = put_exponent(
            out,
            prevexp,
            grpsize,
            idx,
            Ghost(skip as int),
            Ghost(before),
            Ghost(absexp as int),
            Ghost(e1),
        );
        prevexp = prevexp + d2;
        idx = put_exponent(
            out,
            prevexp,
            grpsize,
            idx,
            Ghost(skip as int),
            Ghost(before),
            Ghost(absexp as int),
            Ghost(e2),
        );
        prevexp = prevexp + d3;
        idx = put_exponent(
            out,
            prevexp,
            grpsize,
            idx,
            Ghost(skip as int),
            Ghost(before),
            Ghost(absexp as int),
            Ghost(e3),
        );
        g = g + 1;
    }
}

// ---------------------------------------------------------------------------
// Laws
// ---------------------------------------------------------------------------

/// The sum of the first `k` numbers.
pub open spec fn sum_of(s: Seq<int>, k: nat) -> int
    decreases k,
{
    if k == 0 {
        0
    } else {
        sum_of(s, (k - 1) as nat) + s[k - 1]
    }
}

/// A group of seven bits is the number `25 a + 5 b + c` of three digits below five,
/// the first of them the most significant, and a digit stands for a step of itself
/// less two. So from digits that were packed in this way come the exponents that the
/// steps lead to: those of the `grpsize` bins that digit `k` covers are the absolute
/// exponent and all steps up to that digit together, limited to 0 and 24. Bin 0 holds
/// the absolute exponent where the digits begin behind it, and no other bin changes.
pub proof fn law_packed_steps_come_back(c: Cursor, digits: Seq<int>, out: Seq<u8>, absexp: int, grpsize: int, skip: int, k: int, j: int)
    requires
        digits.len() % 3 == 0,
        forall|i: int| 0 <= i < digits.len() ==> 0 <= #[trigger] digits[i] < 5,
        forall|g: int|
            0 <= g < digits.len() / 3 ==> (#[trigger] (Cursor { pos: c.pos + 7 * g, ..c }).value(7)) == 25 * digits[3 * g] + 5
                * digits[3 * g + 1] + digits[3 * g + 2],
        0 <= c.pos,
        c.pos + 7 * (digits.len() / 3) <= 8 * c.data.len(),
        grpsize > 0,
        skip >= 0,
        0 <= k < digits.len(),
        0 <= j < out.len(),
    ensures
        ({
            let n = digits.len() / 3;
            let r = spread_exponents(out, absexp, differentials(c, n), grpsize, skip);
            let e = absexp + sum_of(digits, (k + 1) as nat) - 2 * (k + 1);
            &&& groups_end(c, n) == (Cursor { pos: c.pos + 7 * n, ..c })
            &&& r.len() == out.len()
            &&& skip + k * grpsize <= j < skip + (k + 1) * grpsize ==> {
                &&& e < 0 ==> r[j] == 0
                &&& 0 <= e <= 24 ==> r[j] == e
                &&& e > 24 ==> r[j] == 24
            }
            &&& j == 0 && skip > 0 && 0 <= absexp <= 24 ==> r[0] == absexp
            &&& 0 < j < skip || (j > 0 && skip + digits.len() * grpsize <= j) ==> r[j] == out[j]
        }),
{
    let n = digits.len() / 3;
    let d = differentials(c, n);
    lemma_packed_differentials(c, digits, n);
    lemma_running_sum(absexp, d, digits, (k + 1) as nat);
    if skip + k * grpsize <= j < skip + (k + 1) * grpsize {
        assert((j - skip) / grpsize == k) by (nonlinear_arith)
            requires
                k * grpsize <= j - skip < (k + 1) * grpsize,
                grpsize > 0,
        ;
        assert((k + 1) * grpsize <= digits.len() * grpsize) by (nonlinear_arith)
            requires
                k + 1 <= digits.len(),
                grpsize > 0,
        ;
        assert(0 <= k * grpsize) by (nonlinear_arith)
            requires
                k >= 0,
                grpsize > 0,
        ;
    }
}

proof fn lemma_packed_differentials(c: Cursor, digits: Seq<int>, n: nat)
    requires
        3 * n <= digits.len(),
        0 <= c.pos,
        c.pos + 7 * n <= 8 * c.data.len(),
        forall|i: int| 0 <= i < digits.len() ==> 0 <= #[trigger] digits[i] < 5,
        forall|g: int|
            0 <= g < n ==> (#[trigger] (Cursor { pos: c.pos + 7 * g, ..c }).value(7)) == 25 * digits[3 * g] + 5 * digits[3 * g + 1]
                + digits[3 * g + 2],
    ensures
        groups_end(c, n) == (Cursor { pos: c.pos + 7 * n, ..c }),
        differentials(c, n).len() == 3 * n,
        forall|i: int| 0 <= i < 3 * n ==> #[trigger] differentials(c, n)[i] == digits[i] - 2,
    decreases n,
{
    if n > 0 {
        let m = (n - 1) as nat;
        lemma_packed_differentials(c, digits, m);
        let g = m as int;
        let v = (Cursor { pos: c.pos + 7 * g, ..c }).value(7);
        assert(v == 25 * digits[3 * g] + 5 * digits[3 * g + 1] + digits[3 * g + 2]);
        assert(0 <= digits[3 * g] < 5 && 0 <= digits[3 * g + 1] < 5 && 0 <= digits[3 * g + 2] < 5);
        assert(groups_end(c, m) == (Cursor { pos: c.pos + 7 * g, ..c }));
    }
}

proof fn lemma_running_sum(absexp: int, d: Seq<int>, digits: Seq<int>, k: nat)
    requires
        k <= d.len(),
        k <= digits.len(),
        forall|i: int| 0 <= i < d.len() ==> #[trigger] d[i] == digits[i] - 2,
    ensures
        running_exponent(absexp, d, k) == absexp + sum_of(digits, k) - 2 * k,
    decreases k,
{
    if k > 0 {
        lemma_running_sum(absexp, d, digits, (k - 1) as nat);
    }
}

} // verus!
