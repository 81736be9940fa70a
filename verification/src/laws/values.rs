//! Plain values: numbers in messages, places and sizes, and what commands ask for.
use crate::commands::{views, Command, CommandView};
use crate::geometry::{same_point, same_size, Point, Size};
use crate::scalar::ScalarMeaning;
use crate::text::{decimal, digit};
use vstd::prelude::*;

verus! {

/// The number that digits stand for.
pub open spec fn number(digits: Seq<char>) -> int
    decreases digits.len(),
{
    if digits.len() == 0 {
        0
    } else {
        10 * number(digits.drop_last()) + (digits.last() as int - '0' as int)
    }
}

/// The digits of a number stand for it; they are digits, and the first is none too many.
pub proof fn law_decimal(n: nat)
    ensures
        number(decimal(n)) == n,
        decimal(n).len() > 0,
        forall|i: int| 0 <= i < decimal(n).len() ==> '0' <= #[trigger] decimal(n)[i] <= '9',
        decimal(n).len() > 1 ==> decimal(n)[0] != '0',
    decreases n,
{
    let d = digit(n);
    assert(d as int == '0' as int + n % 10);
    if n < 10 {
        assert(decimal(n).drop_last() =~= Seq::<char>::empty());
        assert(decimal(n).last() == d);
        assert(number(decimal(n).drop_last()) == 0);
    } else {
        law_decimal(n / 10);
        assert(decimal(n).drop_last() =~= decimal(n / 10));
        assert(decimal(n).last() == d);
        if decimal(n / 10).len() == 1 {
            assert(decimal(n / 10).drop_last() =~= Seq::<char>::empty());
            assert(number(decimal(n / 10).drop_last()) == 0);
        }
    }
}

/// In whole points, places and sizes are the same where they are equal.
pub proof fn law_same(a: Point<i64>, b: Point<i64>, c: Size<i64>, d: Size<i64>)
    ensures
        same_point(a, b) <==> a == b,
        same_size(c, d) <==> c == d,
{
}

/// In whole points, arithmetic is that of integers as far as the range goes, and stops at its ends.
pub proof fn law_whole_points(a: i64, b: i64, n: i32)
    ensures
        i64::MIN <= a + b <= i64::MAX ==> a.sum(b) == a + b,
        i64::MIN <= a - b <= i64::MAX ==> a.difference(b) == a - b,
        i64::MIN <= a * b <= i64::MAX ==> a.product(b) == a * b,
        a + b > i64::MAX ==> a.sum(b) == i64::MAX,
        a + b < i64::MIN ==> a.sum(b) == i64::MIN,
        4 * a.fourth() <= a < 4 * a.fourth() + 4,
        a != i64::MIN ==> a.negation() == -a && (a.absolute() == a || a.absolute() == -a),
        a.absolute() >= 0,
        a.minimum(b) <= a && a.minimum(b) <= b && (a.minimum(b) == a || a.minimum(b) == b),
        a.maximum(b) >= a && a.maximum(b) >= b && (a.maximum(b) == a || a.maximum(b) == b),
        a.rounded_up() == a,
        a.less(b) <==> a < b,
        a.equal(b) <==> a == b,
        i64::integer(n) == n,
{
}

/// Commands ask for what they say, one by one and in order.
pub proof fn law_views(commands: Seq<Command>, i: int)
    requires
        0 <= i < commands.len(),
    ensures
        views(commands).len() == commands.len(),
        match commands[i] {
            Command::Trigger(event) => views(commands)[i] == CommandView::Trigger(event),
            Command::SpawnApplication { process } => views(commands)[i] == (
            CommandView::SpawnApplication { process }),
            Command::SpawnFreshApplication { process, timeout } => views(commands)[i] == (
            CommandView::SpawnFreshApplication { process, timeout: timeout@ }),
            Command::SpawnWindows { source } => views(commands)[i] == (CommandView::SpawnWindows {
                source,
            }),
            Command::SpawnNewWindows { application, windows } => views(commands)[i] == (
            CommandView::SpawnNewWindows { application, windows: windows@ }),
            Command::StartSearch { application, offscreen } => views(commands)[i] == (
            CommandView::StartSearch { application, offscreen: offscreen@ }),
            Command::RemoveExisting(e) => views(commands)[i] == CommandView::RemoveExisting(e),
            Command::RemoveFresh(e) => views(commands)[i] == CommandView::RemoveFresh(e),
            Command::RemoveTimeout(e) => views(commands)[i] == CommandView::RemoveTimeout(e),
            Command::InsertTimeout { entity, timeout } => views(commands)[i] == (
            CommandView::InsertTimeout { entity, timeout: timeout@ }),
            Command::MarkMinimized(e) => views(commands)[i] == CommandView::MarkMinimized(e),
            Command::Focus(e) => views(commands)[i] == CommandView::Focus(e),
            Command::FinishInitializing => views(commands)[i] == CommandView::FinishInitializing,
            Command::Despawn(e) => views(commands)[i] == CommandView::Despawn(e),
            Command::Detach { child, parent } => views(commands)[i] == (CommandView::Detach {
                child,
                parent,
            }),
            Command::SpawnDisplay { present, workspaces } => views(commands)[i] == (
            CommandView::SpawnDisplay { present, workspaces: workspaces@ }),
            Command::ReplaceDisplay { display, present } => views(commands)[i] == (
            CommandView::ReplaceDisplay { display, present }),
            Command::UpdateFrame(e) => views(commands)[i] == CommandView::UpdateFrame(e),
            Command::Reshuffle(e) => views(commands)[i] == CommandView::Reshuffle(e),
        },
{
}

} // verus!
