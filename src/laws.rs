use vstd::prelude::*;

use crate::life::{live_neighbors, mirrored, next_generation, toggled, translated};
use crate::protocol::resolve_step;

verus! {

/// Moving a board by `(dr, dc)` and then by `(-dr, -dc)` gives back the
/// board.
pub proof fn translate_round_trip(s: Set<(int, int)>, dr: int, dc: int)
    ensures
        translated(translated(s, dr, dc), -dr, -dc) == s,
{
    assert(translated(translated(s, dr, dc), -dr, -dc) =~= s);
}

/// Mirroring the rows twice gives back the board.
pub proof fn mirror_twice(s: Set<(int, int)>)
    ensures
        mirrored(mirrored(s)) == s,
{
    assert(mirrored(mirrored(s)) =~= s);
}

/// A board where every live cell has two or three live neighbours and no
/// dead cell has exactly three is unchanged by a step.
pub proof fn still_life(s: Set<(int, int)>)
    requires
        forall|p: (int, int)| #[trigger] s.contains(p) ==> live_neighbors(s, p) == 2 || live_neighbors(s, p) == 3,
        forall|p: (int, int)| !s.contains(p) ==> #[trigger] live_neighbors(s, p) != 3,
    ensures
        next_generation(s) == s,
{
    assert(next_generation(s) =~= s);
}

/// Toggling the same cell twice gives back the board.
pub proof fn toggle_twice(s: Set<(int, int)>, p: (int, int))
    ensures
        toggled(toggled(s, p), p) == s,
{
    assert(toggled(toggled(s, p), p) =~= s);
}

/// Resolving an id a second time changes nothing and is refused.
pub proof fn resolve_twice(pending: Set<u64>, id: u64)
    ensures
        resolve_step(resolve_step(pending, id).0, id) == (resolve_step(pending, id).0, false),
{
}

/// Resolving an id that is not outstanding changes nothing and is refused.
pub proof fn resolve_unknown(pending: Set<u64>, id: u64)
    requires
        !pending.contains(id),
    ensures
        resolve_step(pending, id) == (pending, false),
{
}

} // verus!
