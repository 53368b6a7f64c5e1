use vstd::prelude::*;
use vstd::multiset::Multiset;
use vstd::seq_lib::{group_to_multiset_ensures, to_multiset_build};

use crate::board::{occurrences, random_color};
use crate::types::{color_index, Color, Target, COLOR_COUNT, TILES_PER_COLOR};

verus! {

/// The nine cells of a target in row-major order.
pub open spec fn target_cells(t: Target) -> Seq<Color> {
    Seq::new(9, |k: int| t[k / 3][k % 3])
}

/// No color occurs in the target more often than a board has tiles of it.
pub open spec fn target_valid(t: Target) -> bool {
    forall|c: Color| #[trigger] occurrences(target_cells(t), c) <= TILES_PER_COLOR
}

/// The target whose cells, in row-major order, are `colors`, provided that no
/// color occurs more than four times among them; `None` otherwise.
pub fn target_from_colors(colors: &[Color; 9]) -> (r: Option<Target>)
    ensures
        r is Some <==> forall|c: Color| #[trigger] occurrences(colors@, c) <= TILES_PER_COLOR,
        r is Some ==> target_cells(r->Some_0) == colors@,
{
    let mut counts: [usize; 6] = [0; 6];
    let mut k: usize = 0;
    proof {
        broadcast use group_to_multiset_ensures;

        assert forall|c: Color| #[trigger] counts[color_index(c)] == occurrences(colors@.take(0), c) by {
            assert(!colors@.take(0).contains(c));
        }
    }
    while k < 9
        invariant
            k <= 9,
            forall|c: Color| #[trigger] counts[color_index(c)] == occurrences(colors@.take(k as int), c),
        decreases 9 - k,
    {
        broadcast use group_to_multiset_ensures;

        let color = colors[k];
        let i = color.index();
        let ghost before = counts;
        assert(colors@.take(k + 1) =~= colors@.take(k as int).push(color));
        proof {
            to_multiset_build(colors@.take(k as int), color);
        }
        assert(counts[i as int] <= k) by {
            assert(colors@.take(k as int).to_multiset().len() == k);
        }
        counts[i] = counts[i] + 1;
        assert forall|c: Color| #[trigger] counts[color_index(c)] == occurrences(colors@.take(k + 1), c) by {
            assert(c == color <==> color_index(c) == color_index(color));
        }
        k = k + 1;
    }
    assert(colors@.take(9) =~= colors@);
    let mut ci: usize = 0;
    while ci < COLOR_COUNT
        invariant
            ci <= COLOR_COUNT,
            forall|c: Color| #[trigger] counts[color_index(c)] == occurrences(colors@, c),
            forall|c: Color| color_index(c) < ci ==> #[trigger] occurrences(colors@, c) <= TILES_PER_COLOR,
        decreases COLOR_COUNT - ci,
    {
        if counts[ci] > TILES_PER_COLOR {
            let c = Color::from_index(ci);
            assert(occurrences(colors@, c) > TILES_PER_COLOR);
            return None;
        }
        assert forall|c: Color| color_index(c) <= ci implies #[trigger] occurrences(colors@, c) <= TILES_PER_COLOR by {
            assert(counts[color_index(c)] == occurrences(colors@, c));
        }
        ci = ci + 1;
    }
    let t: Target = [
        [colors[0], colors[1], colors[2]],
        [colors[3], colors[4], colors[5]],
        [colors[6], colors[7], colors[8]],
    ];
    assert(target_cells(t) =~= colors@);
    Some(t)
}

/// A random target in which no color occurs more than four times: nine colors
/// are drawn independently, and the whole draw is repeated until it satisfies
/// that bound. A draw fails with probability below one in ten, so the attempt
/// counter, which bounds the loop, never runs out in practice; if it did, a
/// fixed balanced target would be returned.
pub fn generate_target() -> (t: Target)
    ensures
        target_valid(t),
{
    let mut attempts: u64 = 0;
    while attempts < u64::MAX
        decreases u64::MAX - attempts,
    {
        let colors: [Color; 9] = [
            random_color(),
            random_color(),
            random_color(),
            random_color(),
            random_color(),
            random_color(),
            random_color(),
            random_color(),
            random_color(),
        ];
        match target_from_colors(&colors) {
            Some(t) => {
                return t;
            },
            None => {},
        }
        attempts = attempts + 1;
    }
    balanced_target()
}

/// The six colors in order, then the first three again.
fn balanced_target() -> (t: Target)
    ensures
        target_valid(t),
{
    let t: Target = [
        [Color::White, Color::Yellow, Color::Orange],
        [Color::Red, Color::Green, Color::Blue],
        [Color::White, Color::Yellow, Color::Orange],
    ];
    proof {
        broadcast use group_to_multiset_ensures;

        let s = target_cells(t);
        let e = Seq::<Color>::empty();
        let s1 = e.push(Color::White).push(Color::Yellow).push(Color::Orange);
        let s2 = s1.push(Color::Red).push(Color::Green).push(Color::Blue);
        let s3 = s2.push(Color::White).push(Color::Yellow).push(Color::Orange);
        assert(s =~= s3);
        assert(e.to_multiset() =~= Multiset::empty());
        assert forall|c: Color| #[trigger] occurrences(s, c) <= TILES_PER_COLOR by {
            assert(s1.to_multiset().count(c) <= 1);
            assert(s2.to_multiset().count(c) <= 1);
        }
    }
    t
}

} // verus!
