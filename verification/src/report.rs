//! Text answers of the HTTP interface that carry logic: the tally line.
use vstd::prelude::*;
use vstd::string::StringExecFns;

use crate::block::Candidate;

verus! {

/// The decimal digit for a value below 10.
pub open spec fn digit_char(d: nat) -> char {
    (48 + d) as char
}

/// The decimal notation of `n`, without leading zeros.
pub open spec fn decimal(n: nat) -> Seq<char>
    decreases n,
{
    if n < 10 {
        seq![digit_char(n)]
    } else {
        decimal(n / 10).push(digit_char(n % 10))
    }
}

/// `candidate:count` entries joined by commas.
pub open spec fn tally_text(entries: Seq<(Candidate, usize)>) -> Seq<char>
    decreases entries.len(),
{
    if entries.len() == 0 {
        Seq::empty()
    } else {
        let rest = tally_text(entries.drop_last());
        let line = entries.last().0.spec_name().push(':') + decimal(entries.last().1 as nat);
        if entries.len() == 1 {
            line
        } else {
            rest.push(',') + line
        }
    }
}

fn digit(d: usize) -> (c: char)
    requires
        d < 10,
    ensures
        c == digit_char(d as nat),
{
    match d {
        0 => '0',
        1 => '1',
        2 => '2',
        3 => '3',
        4 => '4',
        5 => '5',
        6 => '6',
        7 => '7',
        8 => '8',
        _ => '9',
    }
}

/// Appends the decimal notation of `n`.
pub fn push_decimal(s: &mut String, n: u128)
    ensures
        final(s)@ == old(s)@ + decimal(n as nat),
    decreases n,
{
    if n >= 10 {
        push_decimal(s, n / 10);
    }
    s.push(digit((n % 10) as usize));
    assert(final(s)@ =~= old(s)@ + decimal(n as nat));
}

/// The tally as text: `candidate:count` for each entry, joined by commas (the
/// entries of `VoteCache::tally` come in candidate order, which is also the
/// lexicographic order of these lines).
pub fn tally_report(entries: &[(Candidate, usize)]) -> (s: String)
    ensures
        s@ == tally_text(entries@),
{
    let mut s = String::new();
    let mut i: usize = 0;
    while i < entries.len()
        invariant
            i <= entries@.len(),
            s@ == tally_text(entries@.take(i as int)),
        decreases entries.len() - i,
    {
        let ghost before = s@;
        proof {
            assert(entries@.take((i + 1) as int).drop_last() =~= entries@.take(i as int));
            assert(entries@.take((i + 1) as int).last() == entries@[i as int]);
        }
        if i > 0 {
            s.push(',');
        }
        let name = entries[i].0.name();
        s.append(name.as_str());
        s.push(':');
        push_decimal(&mut s, entries[i].1 as u128);
        proof {
            if i == 0 {
                assert(before =~= Seq::<char>::empty());
            }
            assert(s@ =~= tally_text(entries@.take((i + 1) as int)));
        }
        i = i + 1;
    }
    assert(entries@.take(entries@.len() as int) =~= entries@);
    s
}

} // verus!
