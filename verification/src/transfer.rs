//! What the corner indicator says while files are moving.
//!
//! The set of running transfers in, a line of text and a bar fraction out: the
//! rules that are easy to get subtly wrong — an unknown total, nothing running,
//! several at once — are settled here rather than by watching the window.

use crate::text;
use crate::text::decimal_text;
use vstd::prelude::*;

verus! {

/// One transfer as the indicator sees it.
#[derive(Debug, Clone, PartialEq, Eq)]
pub struct Active {
    pub description: String,
    pub current: i64,
    pub total: i64,
}

/// A part of a whole: how far a bar is filled.
#[derive(Debug, Clone, Copy, PartialEq, Eq)]
pub struct Fraction<Number = i128> {
    pub part: Number,
    pub whole: Number,
}

/// How many bytes the transfers have moved.
pub open spec fn moved(active: Seq<Active>) -> int
    decreases active.len(),
{
    if active.len() == 0 {
        0
    } else {
        moved(active.drop_last()) + active.last().current
    }
}

/// How many bytes the transfers have to move.
pub open spec fn due(active: Seq<Active>) -> int
    decreases active.len(),
{
    if active.len() == 0 {
        0
    } else {
        due(active.drop_last()) + active.last().total
    }
}

/// What the indicator says: the one transfer by its name, several by their
/// number. Naming one of three would claim the other two are not happening.
pub open spec fn line(active: Seq<Active>) -> Seq<char> {
    if active.len() == 1 {
        active[0].description@
    } else {
        text::decimal(active.len()) + " transfers"@
    }
}

/// How far the bar is filled, or `None` where nobody can say: no bytes reported
/// yet, or no total to measure against. A bar never overflows, although a copy can
/// report more bytes than it predicted.
pub open spec fn bar(active: Seq<Active>) -> Option<Fraction<int>> {
    if due(active) > 0 && moved(active) > 0 {
        Some(
            Fraction {
                part: if moved(active) > due(active) {
                    due(active)
                } else {
                    moved(active)
                },
                whole: due(active),
            },
        )
    } else {
        None
    }
}

/// What to show for the transfers currently running.
///
/// The outer `None` means nothing is running and the indicator hides — which is
/// not the same as a bar sitting at zero, and reads very differently.
///
/// The inner `None` fraction means *indeterminate*: work is happening and nobody
/// can say how far along it is. That is not a corner case: a copy within one
/// filesystem reports nothing until it is over. A bar frozen at 0% lies as loudly
/// as no bar at all; a pulsing one tells the truth.
pub fn summarize(active: &[Active]) -> (shown: Option<(String, Option<Fraction>)>)
    ensures
        match shown {
            None => active@.len() == 0,
            Some((description, fraction)) => {
                &&& active@.len() > 0
                &&& description@ == line(active@)
                &&& match fraction {
                    Some(fraction) => bar(active@) == Some(
                        Fraction { part: fraction.part as int, whole: fraction.whole as int },
                    ),
                    None => bar(active@) is None,
                }
            },
        },
{
    if active.len() == 0 {
        return None;
    }
    let description: String = if active.len() == 1 {
        active[0].description.clone()
    } else {
        let mut counted: String = decimal_text(active.len() as u64);
        counted.append(" transfers");
        counted
    };
    let mut current: i128 = 0;
    let mut total: i128 = 0;
    let mut i: usize = 0;
    proof {
        assert(active@.take(0) =~= Seq::<Active>::empty());
    }
    while i < active.len()
        invariant
            i <= active@.len(),
            current == moved(active@.take(i as int)),
            total == due(active@.take(i as int)),
            -0x8000_0000_0000_0000 * i <= current <= 0x8000_0000_0000_0000 * i,
            -0x8000_0000_0000_0000 * i <= total <= 0x8000_0000_0000_0000 * i,
        decreases active.len() - i,
    {
        proof {
            assert(active@.take(i + 1).drop_last() =~= active@.take(i as int));
        }
        current = current + active[i].current as i128;
        total = total + active[i].total as i128;
        i = i + 1;
    }
    proof {
        assert(active@.take(i as int) =~= active@);
    }
    if total > 0 && current > 0 {
        let part: i128 = if current > total {
            total
        } else {
            current
        };
        Some((description, Some(Fraction { part, whole: total })))
    } else {
        Some((description, None))
    }
}

/// A bar that is shown is filled a little and never more than wholly.
pub proof fn law_a_fraction_never_leaves_its_bar(active: Seq<Active>)
    requires
        bar(active) is Some,
    ensures
        0 < bar(active)->0.part <= bar(active)->0.whole,
{
}

/// The bar is full exactly if all that is due has been moved.
pub proof fn law_a_full_bar_means_all_was_moved(active: Seq<Active>)
    requires
        bar(active) is Some,
    ensures
        bar(active)->0.part == bar(active)->0.whole <==> moved(active) >= due(active),
{
}

/// Several transfers share one bar: it is filled as their bytes taken together
/// say.
pub proof fn law_transfers_share_one_bar(a: Seq<Active>, b: Seq<Active>)
    ensures
        moved(a + b) == moved(a) + moved(b),
        due(a + b) == due(a) + due(b),
    decreases b.len(),
{
    if b.len() == 0 {
        assert(a + b =~= a);
    } else {
        assert((a + b).drop_last() =~= a + b.drop_last());
        law_transfers_share_one_bar(a, b.drop_last());
    }
}

/// One transfer by itself counts with all that it has moved and all that it has to
/// move, whether it has moved anything yet or not.
pub proof fn law_a_transfer_counts_in_full(transfer: Active)
    ensures
        moved(seq![transfer]) == transfer.current,
        due(seq![transfer]) == transfer.total,
        moved(Seq::<Active>::empty()) == 0,
        due(Seq::<Active>::empty()) == 0,
{
    let none = Seq::<Active>::empty();
    assert(seq![transfer].drop_last() =~= none);
    assert(moved(none) == 0 && due(none) == 0);
    assert(seq![transfer].last() == transfer);
}

/// One more transfer adds what it has moved to the part and what it has to move to
/// the whole. A bar is shown exactly if something was moved and there is something
/// to measure it against, and its part is what was moved, as far as that fits.
pub proof fn law_the_bar_measures_all_transfers(active: Seq<Active>, another: Active)
    ensures
        moved(active.push(another)) == moved(active) + another.current,
        due(active.push(another)) == due(active) + another.total,
        bar(active) is Some <==> moved(active) >= 1 && due(active) >= 1,
        bar(active) matches Some(shown) ==> {
            &&& shown.whole == due(active)
            &&& moved(active) <= due(active) ==> shown.part == moved(active)
            &&& moved(active) > due(active) ==> shown.part == due(active)
        },
{
    assert(active.push(another).drop_last() =~= active);
}

/// A single transfer is called by its name, and of several only their number
/// matters.
pub proof fn law_only_a_single_transfer_is_named(
    transfer: Active,
    a: Seq<Active>,
    b: Seq<Active>,
)
    requires
        a.len() != 1,
        b.len() != 1,
    ensures
        line(seq![transfer]) == transfer.description@,
        line(a) == text::decimal(a.len()) + " transfers"@,
        line(a) == line(b) <==> a.len() == b.len(),
{
    if line(a) == line(b) {
        let x = text::decimal(a.len());
        let y = text::decimal(b.len());
        let n = " transfers"@.len();
        assert(line(a).len() == x.len() + n);
        assert(line(b).len() == y.len() + n);
        assert(line(a).take(x.len() as int) =~= x);
        assert(line(b).take(y.len() as int) =~= y);
        text::law_decimal_tells_numbers_apart(a.len(), b.len());
    }
}

/// A single transfer is shown by its own description and its own bar: what it has moved
/// out of what it has to move, once it has moved anything and there is anything to move.
/// Without transfers nothing is shown.
pub proof fn law_a_single_transfer_is_shown_as_it_is(
    active: &[Active],
    shown: Option<(String, Option<Fraction>)>,
)
    requires
        call_ensures(summarize, (active,), shown),
    ensures
        active@.len() == 0 <==> shown is None,
        active@.len() == 1 ==> ({
            let transfer = active@[0];
            let fraction = (shown->0).1;
            &&& (shown->0).0@ == transfer.description@
            &&& fraction is Some <==> transfer.current > 0 && transfer.total > 0
            &&& fraction is Some ==> (fraction->0).whole == transfer.total
            &&& fraction is Some && transfer.current <= transfer.total ==> (fraction->0).part
                == transfer.current
            &&& fraction is Some && transfer.current > transfer.total ==> (fraction->0).part
                == transfer.total
        }),
{
    if active@.len() == 1 {
        assert(active@ =~= seq![active@[0]]);
        law_a_transfer_counts_in_full(active@[0]);
    }
}

} // verus!
