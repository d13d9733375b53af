//! What layout optimization settles before it scores anything: the order in which it visits the
//! trigrams of positions and the swaps of two positions, the trigrams that a swap touches, the
//! type of each trigram of positions, and the printed form of a layout.
use vstd::prelude::*;

use crate::corpus::cube_index;
use crate::finger::Finger;
use crate::keyboard::Pos;
use crate::layout::{swapped, Layout};
use crate::trigram_types::{first_match_index, TrigramTypes};

verus! {

use vstd::arithmetic::div_mod::{
    lemma_div_pos_is_pos, lemma_fundamental_div_mod, lemma_fundamental_div_mod_converse,
    lemma_mod_pos_bound,
};

/// A trigram that a swap touches, as the optimizer keeps it: its index among all trigrams of
/// positions, and its three positions.
pub type OptimizerTrigrams = (u32, [u8; 3]);

/// The index of the trigram of positions `t` among all trigrams of positions of a keyboard with
/// `n` positions, in lexicographic order: `t[0]·n² + t[1]·n + t[2]`.
pub open spec fn position_index(n: int, t: [Pos; 3]) -> int {
    cube_index(n, t[2] as int, t[1] as int, t[0] as int)
}

/// The trigram of positions at index `x` in lexicographic order: the three digits of `x` in
/// base `n`.
pub open spec fn trigram_at(n: int, x: int) -> [Pos; 3] {
    [(x / (n * n)) as Pos, ((x / n) % n) as Pos, (x % n) as Pos]
}

/// All trigrams of positions of a keyboard with `n` positions, in lexicographic order.
pub open spec fn all_trigrams(n: nat) -> Seq<[Pos; 3]> {
    Seq::new(n * n * n, |x: int| trigram_at(n as int, x))
}

/// Whether `p1` or `p2` is among the positions of `t`.
pub open spec fn touches(t: [Pos; 3], p1: Pos, p2: Pos) -> bool {
    t[0] == p1 || t[1] == p1 || t[2] == p1 || t[0] == p2 || t[1] == p2 || t[2] == p2
}

/// The test `touches` with its positions fixed.
pub open spec fn touching(p1: Pos, p2: Pos) -> spec_fn([Pos; 3]) -> bool {
    |t: [Pos; 3]| touches(t, p1, p2)
}

/// The trigrams whose keys change when the keys at `p1` and `p2` trade places, in lexicographic
/// order: those with `p1` or `p2` among their positions; none when the two positions are one.
pub open spec fn swap_affected(n: nat, p1: Pos, p2: Pos) -> Seq<[Pos; 3]> {
    if p1 == p2 {
        Seq::empty()
    } else {
        all_trigrams(n).filter(touching(p1, p2))
    }
}

/// The form in which the optimizer keeps a trigram of positions: its index and its positions,
/// cut to 32 and to 8 bits.
pub open spec fn optimizer_trigram(n: int) -> spec_fn([Pos; 3]) -> OptimizerTrigrams {
    |t: [Pos; 3]| (position_index(n, t) as u32, [t[0] as u8, t[1] as u8, t[2] as u8])
}

/// The digits of an index in lexicographic order are the positions it was made of.
pub proof fn lemma_trigram_at(n: int, i: int, j: int, k: int)
    requires
        0 <= i < n,
        0 <= j < n,
        0 <= k < n,
    ensures
        trigram_at(n, cube_index(n, k, j, i)) == [i as Pos, j as Pos, k as Pos],
{
    let x = cube_index(n, k, j, i);
    assert(x == (i * n + j) * n + k) by (nonlinear_arith)
        requires
            x == k + j * n + i * n * n,
    ;
    lemma_fundamental_div_mod_converse(x, n, i * n + j, k);
    lemma_fundamental_div_mod_converse(i * n + j, n, i, j);
    assert(x == i * (n * n) + (j * n + k)) by (nonlinear_arith)
        requires
            x == k + j * n + i * n * n,
    ;
    assert(0 <= j * n + k < n * n) by (nonlinear_arith)
        requires
            0 <= j < n,
            0 <= k < n,
    ;
    lemma_fundamental_div_mod_converse(x, n * n, i, j * n + k);
}

/// Counting through the trigrams of positions like an odometer, the last position first, steps
/// the lexicographic index by one.
pub proof fn lemma_odometer(n: int, i: int, j: int, k: int)
    requires
        0 <= i < n,
        0 <= j < n,
        0 <= k < n,
    ensures
        k + 1 < n ==> cube_index(n, k + 1, j, i) == cube_index(n, k, j, i) + 1,
        k + 1 == n && j + 1 < n ==> cube_index(n, 0, j + 1, i) == cube_index(n, k, j, i) + 1,
        k + 1 == n && j + 1 == n ==> cube_index(n, 0, 0, i + 1) == cube_index(n, k, j, i) + 1,
        cube_index(n, 0, 0, n) == n * n * n,
{
    assert(k + 1 == n ==> (j + 1) * n == j * n + k + 1) by (nonlinear_arith);
    assert(k + 1 == n && j + 1 == n ==> (i + 1) * n * n == i * n * n + j * n + k + 1)
        by (nonlinear_arith);
}

/// The trigrams whose keys change when the keys at positions `p1` and `p2` of a keyboard with
/// `len` positions trade places, in lexicographic order, each with its index among all trigrams
/// of positions; none when `p1` and `p2` are one position.
pub fn affected_trigrams(len: usize, p1: Pos, p2: Pos) -> (r: Vec<OptimizerTrigrams>)
    requires
        len * len * len <= usize::MAX,
    ensures
        r@ == swap_affected(len as nat, p1, p2).map_values(optimizer_trigram(len as int)),
{
    let mut r: Vec<OptimizerTrigrams> = Vec::new();
    if p1 == p2 {
        assert(r@ == swap_affected(len as nat, p1, p2).map_values(optimizer_trigram(len as int)));
        return r;
    }
    let n = len;
    let total = if n == 0 {
        0
    } else {
        assert(n * n <= n * n * n) by (nonlinear_arith)
            requires
                n >= 1,
        ;
        n * n * n
    };
    let ghost all = all_trigrams(n as nat);
    let ghost mut picked: Seq<[Pos; 3]> = Seq::empty();
    let mut x: usize = 0;
    let mut i: usize = 0;
    let mut j: usize = 0;
    let mut k: usize = 0;
    assert(all.take(0).filter(touching(p1, p2)) == Seq::<[Pos; 3]>::empty()) by {
        reveal(Seq::filter);
    }
    assert(cube_index(n as int, 0, 0, 0) == 0) by (nonlinear_arith);
    while x < total
        invariant
            total == n * n * n,
            all == all_trigrams(n as nat),
            x <= total,
            x == cube_index(n as int, k as int, j as int, i as int),
            x < total ==> i < n && j < n && k < n,
            picked == all.take(x as int).filter(touching(p1, p2)),
            r@ == picked.map_values(optimizer_trigram(n as int)),
        decreases total - x,
    {
        proof {
            lemma_trigram_at(n as int, i as int, j as int, k as int);
            lemma_odometer(n as int, i as int, j as int, k as int);
            assert(all[x as int] == [i, j, k]);
            let s = all.take(x + 1);
            assert(s.drop_last() == all.take(x as int));
            assert(s.last() == [i, j, k]);
            reveal(Seq::filter);
        }
        if i == p1 || j == p1 || k == p1 || i == p2 || j == p2 || k == p2 {
            r.push(
                (
                    #[verifier::truncate]
                    (x as u32),
                    [
                        #[verifier::truncate]
                        (i as u8),
                        #[verifier::truncate]
                        (j as u8),
                        #[verifier::truncate]
                        (k as u8),
                    ],
                ),
            );
            proof {
                let t = [i, j, k];
                assert(optimizer_trigram(n as int)(t) == (x as u32, [i as u8, j as u8, k as u8]));
                assert(picked.push(t).map_values(optimizer_trigram(n as int)) == picked.map_values(
                    optimizer_trigram(n as int),
                ).push(optimizer_trigram(n as int)(t)));
                picked = picked.push(t);
            }
        }
        k = k + 1;
        if k == n {
            k = 0;
            j = j + 1;
            if j == n {
                j = 0;
                i = i + 1;
            }
        }
        x = x + 1;
    }
    assert(all.take(total as int) == all);
    r
}

/// The trigrams that a swap touches are exactly those of positions on the keyboard that have
/// one of the two swapped positions among theirs, when the two differ.
pub proof fn lemma_swap_affected(n: nat, p1: Pos, p2: Pos, t: [Pos; 3])
    requires
        t[0] < n,
        t[1] < n,
        t[2] < n,
    ensures
        swap_affected(n, p1, p2).contains(t) <==> (p1 != p2 && touches(t, p1, p2)),
{
    if p1 != p2 {
        let all = all_trigrams(n);
        let x = position_index(n as int, t);
        crate::corpus::lemma_cube_bounds(n as int, t[2] as int, t[1] as int, t[0] as int);
        lemma_trigram_at(n as int, t[0] as int, t[1] as int, t[2] as int);
        assert(all[x] == t);
        if touches(t, p1, p2) {
            all.lemma_filter_contains(touching(p1, p2), x);
        }
        if all.filter(touching(p1, p2)).contains(t) {
            let l = choose|l: int|
                0 <= l < all.filter(touching(p1, p2)).len() && all.filter(touching(p1, p2))[l] == t;
            all.lemma_filter_pred(touching(p1, p2), l);
        }
    }
}

/// A swap leaves the keys of every trigram that it does not touch as they were: the cost of
/// a layout changes only on the trigrams that `affected_trigrams` lists.
pub proof fn lemma_swap_keeps_untouched(keys: Seq<usize>, p1: Pos, p2: Pos, t: [Pos; 3])
    requires
        p1 < keys.len(),
        p2 < keys.len(),
        t[0] < keys.len(),
        t[1] < keys.len(),
        t[2] < keys.len(),
        !swap_affected(keys.len(), p1, p2).contains(t),
    ensures
        swapped(keys, p1, p2)[t[0] as int] == keys[t[0] as int],
        swapped(keys, p1, p2)[t[1] as int] == keys[t[1] as int],
        swapped(keys, p1, p2)[t[2] as int] == keys[t[2] as int],
{
    lemma_swap_affected(keys.len(), p1, p2, t);
}

/// The three digits of an index below `n³` are positions below `n`.
pub proof fn lemma_trigram_at_bounds(n: int, x: int)
    requires
        0 <= x < n * n * n,
        n <= usize::MAX,
    ensures
        0 <= x / (n * n) < n,
        0 <= (x / n) % n < n,
        0 <= x % n < n,
        trigram_at(n, x)[0] < n,
        trigram_at(n, x)[1] < n,
        trigram_at(n, x)[2] < n,
{
    assert(n > 0) by (nonlinear_arith)
        requires
            0 <= x < n * n * n,
    ;
    assert(n * n > 0) by (nonlinear_arith)
        requires
            n > 0,
    ;
    lemma_fundamental_div_mod(x, n * n);
    lemma_mod_pos_bound(x, n * n);
    lemma_div_pos_is_pos(x, n * n);
    let q = x / (n * n);
    let r = x % (n * n);
    assert(q < n) by (nonlinear_arith)
        requires
            x == n * n * q + r,
            0 <= r,
            x < n * n * n,
            n > 0,
    ;
    lemma_div_pos_is_pos(x, n);
    lemma_mod_pos_bound(x / n, n);
    lemma_mod_pos_bound(x, n);
}

/// The keys at the three positions of `t`.
pub open spec fn keys_at(keys: Seq<usize>, t: [Pos; 3]) -> [usize; 3] {
    [keys[t[0] as int], keys[t[1] as int], keys[t[2] as int]]
}

/// The sum over the trigrams of positions `ts` of `cost`, each trigram taken with the keys at
/// its positions.
pub open spec fn total_cost(
    ts: Seq<[Pos; 3]>,
    keys: Seq<usize>,
    cost: spec_fn([Pos; 3], [usize; 3]) -> int,
) -> int
    decreases ts.len(),
{
    if ts.len() == 0 {
        0
    } else {
        total_cost(ts.drop_last(), keys, cost) + cost(ts.last(), keys_at(keys, ts.last()))
    }
}

/// When only the trigrams that pass `keep` can have other keys, the total changes by what
/// those trigrams change.
proof fn lemma_total_cost_filter(
    ts: Seq<[Pos; 3]>,
    before: Seq<usize>,
    after: Seq<usize>,
    cost: spec_fn([Pos; 3], [usize; 3]) -> int,
    keep: spec_fn([Pos; 3]) -> bool,
)
    requires
        forall|i: int|
            0 <= i < ts.len() && !keep(#[trigger] ts[i]) ==> keys_at(after, ts[i]) == keys_at(
                before,
                ts[i],
            ),
    ensures
        total_cost(ts, after, cost) == total_cost(ts, before, cost) - total_cost(
            ts.filter(keep),
            before,
            cost,
        ) + total_cost(ts.filter(keep), after, cost),
    decreases ts.len(),
{
    reveal(Seq::filter);
    if ts.len() > 0 {
        let q = ts.drop_last();
        let t = ts.last();
        assert forall|i: int| 0 <= i < q.len() && !keep(#[trigger] q[i]) implies keys_at(
            after,
            q[i],
        ) == keys_at(before, q[i]) by {
            assert(q[i] == ts[i]);
        }
        lemma_total_cost_filter(q, before, after, cost, keep);
        if keep(t) {
            assert(q.filter(keep).push(t).drop_last() == q.filter(keep));
        } else {
            assert(ts[ts.len() - 1] == t);
        }
    }
}

/// The total cost of a layout after a swap is its total before, less what the trigrams that
/// the swap touches cost before, plus what they cost after: the optimizer's update of a
/// cached score by `affected_trigrams` alone is exact, whatever each trigram costs.
pub proof fn lemma_swap_cost(
    keys: Seq<usize>,
    p1: Pos,
    p2: Pos,
    cost: spec_fn([Pos; 3], [usize; 3]) -> int,
)
    requires
        p1 < keys.len(),
        p2 < keys.len(),
        keys.len() <= usize::MAX,
    ensures
        total_cost(all_trigrams(keys.len()), swapped(keys, p1, p2), cost) == total_cost(
            all_trigrams(keys.len()),
            keys,
            cost,
        ) - total_cost(swap_affected(keys.len(), p1, p2), keys, cost) + total_cost(
            swap_affected(keys.len(), p1, p2),
            swapped(keys, p1, p2),
            cost,
        ),
{
    let n = keys.len();
    let all = all_trigrams(n);
    let after = swapped(keys, p1, p2);
    if p1 == p2 {
        assert(after == keys);
    } else {
        assert forall|i: int|
            0 <= i < all.len() && !touching(p1, p2)(#[trigger] all[i]) implies keys_at(
            after,
            all[i],
        ) == keys_at(keys, all[i]) by {
            lemma_trigram_at_bounds(n as int, i);
        }
        lemma_total_cost_filter(all, keys, after, cost, touching(p1, p2));
    }
}

/// A swap lists the trigrams that hold one of its two positions, whichever comes first: for
/// different positions a trigram on the keyboard is listed exactly when one of its three
/// positions is `p1` or `p2`, and swapping `p1` with `p2` lists what swapping `p2` with `p1`
/// lists.
pub proof fn lemma_swap_affected_symmetric(n: nat, p1: Pos, p2: Pos, t: [Pos; 3])
    requires
        t[0] < n,
        t[1] < n,
        t[2] < n,
    ensures
        p1 != p2 ==> (swap_affected(n, p1, p2).contains(t) <==> (t[0] == p1 || t[1] == p1 || t[2]
            == p1 || t[0] == p2 || t[1] == p2 || t[2] == p2)),
        swap_affected(n, p1, p2) == swap_affected(n, p2, p1),
{
    lemma_swap_affected(n, p1, p2, t);
    if p1 != p2 {
        assert(touching(p1, p2) == touching(p2, p1));
    }
}

/// The swap of two positions at index `x` in lexicographic order: the two digits of `x` in
/// base `n`.
pub open spec fn pair_at(n: int, x: int) -> (Pos, Pos) {
    ((x / n) as Pos, (x % n) as Pos)
}

/// All swaps of two positions of a keyboard with `n` positions, a position with itself among
/// them, in lexicographic order.
pub open spec fn all_swaps(n: nat) -> Seq<(Pos, Pos)> {
    Seq::new(n * n, |x: int| pair_at(n as int, x))
}

/// Every swap of two positions below `n` stands in the list once, at `i·n + j` for the swap
/// of `i` with `j`: the list runs through the first position, and for each through the second.
pub proof fn lemma_all_swaps(n: nat, i: Pos, j: Pos)
    requires
        i < n,
        j < n,
    ensures
        0 <= i * n + j < all_swaps(n).len(),
        all_swaps(n)[i * n + j] == (i, j),
{
    lemma_fundamental_div_mod_converse(i * n + j, n as int, i as int, j as int);
    assert(i * n + j < n * n) by (nonlinear_arith)
        requires
            i < n,
            j < n,
    ;
}

/// The index of the trigram of positions `t` among all trigrams of positions of a keyboard with
/// `len` positions.
pub fn trigram_index(len: usize, t: [Pos; 3]) -> (r: usize)
    requires
        t[0] < len,
        t[1] < len,
        t[2] < len,
        len * len * len <= usize::MAX,
    ensures
        r == position_index(len as int, t),
        all_trigrams(len as nat)[r as int] == t,
{
    proof {
        crate::corpus::lemma_cube_bounds(len as int, t[2] as int, t[1] as int, t[0] as int);
        lemma_trigram_at(len as int, t[0] as int, t[1] as int, t[2] as int);
        assert(t[0] * (len * len) == t[0] * len * len) by (nonlinear_arith);
        assert(t[1] * len >= 0) by (nonlinear_arith);
    }
    t[0] * (len * len) + t[1] * len + t[2]
}

/// All swaps of two positions of a keyboard with `len` positions, in lexicographic order.
pub fn swap_list(len: usize) -> (r: Vec<(Pos, Pos)>)
    requires
        len * len <= usize::MAX,
    ensures
        r@ == all_swaps(len as nat),
{
    let n = len;
    let mut r: Vec<(Pos, Pos)> = Vec::new();
    let mut i: usize = 0;
    while i < n
        invariant
            n * n <= usize::MAX,
            i <= n,
            r@ == all_swaps(n as nat).take(i * n),
        decreases n - i,
    {
        let mut j: usize = 0;
        proof {
            assert(i * n + n <= n * n) by (nonlinear_arith)
                requires
                    i < n,
            ;
        }
        while j < n
            invariant
                n * n <= usize::MAX,
                i < n,
                j <= n,
                i * n + n <= n * n,
                r@ == all_swaps(n as nat).take(i * n + j),
            decreases n - j,
        {
            proof {
                let x = i * n + j;
                lemma_fundamental_div_mod_converse(x, n as int, i as int, j as int);
                assert(all_swaps(n as nat)[x] == (i, j));
                assert(all_swaps(n as nat).take(x + 1) == all_swaps(n as nat).take(x).push((i, j)));
            }
            r.push((i, j));
            j = j + 1;
        }
        proof {
            assert(i * n + n == (i + 1) * n) by (nonlinear_arith);
        }
        i = i + 1;
    }
    assert(all_swaps(n as nat).take(n * n) == all_swaps(n as nat));
    r
}

/// For every trigram of positions of the keyboard of `types`, in lexicographic order, where its
/// type stands in the list of types: the index of the first type that claims it, or the length
/// of the list when none does and it is of the default type.
pub fn trigram_type_table(types: &TrigramTypes) -> (r: Vec<usize>)
    requires
        types.spec_keyboard().len() * types.spec_keyboard().len() * types.spec_keyboard().len()
            <= usize::MAX,
    ensures
        r@.len() == all_trigrams(types.spec_keyboard().len()).len(),
        forall|x: int|
            0 <= x < r@.len() ==> r@[x] == first_match_index(
                types.spec_types(),
                types.spec_keyboard(),
                #[trigger] all_trigrams(types.spec_keyboard().len())[x],
            ),
{
    let n = types.keyboard().len();
    let ghost all = all_trigrams(n as nat);
    let total = if n == 0 {
        0
    } else {
        assert(n * n <= n * n * n) by (nonlinear_arith)
            requires
                n >= 1,
        ;
        n * n * n
    };
    let mut r: Vec<usize> = Vec::new();
    let mut x: usize = 0;
    let mut i: usize = 0;
    let mut j: usize = 0;
    let mut k: usize = 0;
    assert(cube_index(n as int, 0, 0, 0) == 0) by (nonlinear_arith);
    while x < total
        invariant
            n == types.spec_keyboard().len(),
            total == n * n * n,
            all == all_trigrams(n as nat),
            x <= total,
            x == cube_index(n as int, k as int, j as int, i as int),
            x < total ==> i < n && j < n && k < n,
            r@.len() == x,
            forall|y: int|
                0 <= y < x ==> r@[y] == first_match_index(
                    types.spec_types(),
                    types.spec_keyboard(),
                    #[trigger] all[y],
                ),
        decreases total - x,
    {
        proof {
            lemma_trigram_at(n as int, i as int, j as int, k as int);
            lemma_odometer(n as int, i as int, j as int, k as int);
            assert(all[x as int] == [i, j, k]);
        }
        let t = types.type_index([i, j, k]);
        r.push(t);
        k = k + 1;
        if k == n {
            k = 0;
            j = j + 1;
            if j == n {
                j = 0;
                i = i + 1;
            }
        }
        x = x + 1;
    }
    r
}

/// What stands before a key in the printed form of a layout, given the fingers of the key before
/// it and of the key: a line break from the right pinky to the left pinky, two spaces from the
/// left index finger to the right index finger, else one space.
pub open spec fn key_separator(prev: Finger, f: Finger) -> Seq<char> {
    if prev == Finger::RP && f == Finger::LP {
        seq!['\n']
    } else if prev == Finger::LI && f == Finger::RI {
        seq![' ', ' ']
    } else {
        seq![' ']
    }
}

/// The printed form of the first `n` positions of a layout: for each position, its separator and
/// the character of its key, the first position taken to follow the right pinky.
pub open spec fn layout_text(keys: Seq<usize>, fingers: Seq<Finger>, chars: Seq<char>, n: nat) -> Seq<
    char,
>
    decreases n,
{
    if n == 0 {
        Seq::empty()
    } else {
        let prev = if n == 1 {
            Finger::RP
        } else {
            fingers[n - 2]
        };
        layout_text(keys, fingers, chars, (n - 1) as nat) + key_separator(prev, fingers[n - 1])
            + seq![chars[keys[n - 1] as int]]
    }
}

/// The printed form of a layout, the character of each key taken from `chars` at the key's
/// index: keys of a row apart by spaces, two between the hands, a line break between rows.
pub fn layout_to_str(chars: &[char], layout: &Layout) -> (s: String)
    requires
        forall|i: int| 0 <= i < layout.spec_keys().len() ==> #[trigger] layout.spec_keys()[i] < chars@.len(),
        layout.wf(),
    ensures
        s@ == layout_text(layout.spec_keys(), layout.spec_fingers(), chars@, layout.spec_keys().len()),
{
    let keys = layout.keys();
    let fingers = layout.fingers();
    let n = layout.len();
    let mut out: Vec<char> = Vec::new();
    let mut last = Finger::RP;
    let mut i: usize = 0;
    while i < n
        invariant
            n == keys@.len(),
            n == fingers@.len(),
            keys@ == layout.spec_keys(),
            fingers@ == layout.spec_fingers(),
            forall|l: int| 0 <= l < keys@.len() ==> #[trigger] keys@[l] < chars@.len(),
            i <= n,
            last == (if i == 0 {
                Finger::RP
            } else {
                fingers@[i - 1]
            }),
            out@ == layout_text(keys@, fingers@, chars@, i as nat),
        decreases n - i,
    {
        let f = fingers[i];
        if last == Finger::RP && f == Finger::LP {
            out.push('\n');
        } else if last == Finger::LI && f == Finger::RI {
            out.push(' ');
            out.push(' ');
        } else {
            out.push(' ');
        }
        out.push(chars[keys[i]]);
        last = f;
        i = i + 1;
        proof {
            let prev = if i == 1 {
                Finger::RP
            } else {
                fingers@[i - 2]
            };
            assert(out@ == layout_text(keys@, fingers@, chars@, (i - 1) as nat) + key_separator(
                prev,
                fingers@[i - 1],
            ) + seq![chars@[keys@[i - 1] as int]]);
        }
    }
    crate::data::string_from_chars(out.as_slice())
}

/// The printed form of a layout grows key by key: the form of the first `n` positions is that
/// of the first `n - 1` followed by only spaces or a line break and then, last, the character
/// of the key at position `n - 1`.
pub proof fn lemma_layout_text_grows(keys: Seq<usize>, fingers: Seq<Finger>, chars: Seq<char>, n: nat)
    requires
        0 < n,
    ensures
        ({
            let before = layout_text(keys, fingers, chars, (n - 1) as nat);
            let after = layout_text(keys, fingers, chars, n);
            &&& before.len() < after.len()
            &&& after.take(before.len() as int) == before
            &&& after.last() == chars[keys[n - 1] as int]
            &&& forall|x: int|
                before.len() <= x < after.len() - 1 ==> #[trigger] after[x] == ' ' || after[x]
                    == '\n'
        }),
{
    let before = layout_text(keys, fingers, chars, (n - 1) as nat);
    let after = layout_text(keys, fingers, chars, n);
    let prev = if n == 1 {
        Finger::RP
    } else {
        fingers[n - 2]
    };
    let sep = key_separator(prev, fingers[n - 1]);
    assert(after == before + sep + seq![chars[keys[n - 1] as int]]);
    assert(after.take(before.len() as int) == before);
}

/// Each key of a printed layout is the character of the key at its position: the characters
/// of the printed form that are not separators come, position by position, from the keys.
pub proof fn lemma_layout_text_keys(
    keys: Seq<usize>,
    fingers: Seq<Finger>,
    chars: Seq<char>,
    n: nat,
    i: nat,
)
    requires
        i < n,
    ensures
        layout_text(keys, fingers, chars, i + 1).last() == chars[keys[i as int] as int],
        layout_text(keys, fingers, chars, i + 1).len() <= layout_text(keys, fingers, chars, n).len(),
        layout_text(keys, fingers, chars, n).take(layout_text(keys, fingers, chars, i + 1).len() as int)
            == layout_text(keys, fingers, chars, i + 1),
    decreases n,
{
    lemma_layout_text_grows(keys, fingers, chars, i + 1);
    if i + 1 < n {
        lemma_layout_text_keys(keys, fingers, chars, (n - 1) as nat, i);
        lemma_layout_text_grows(keys, fingers, chars, n);
        let a = layout_text(keys, fingers, chars, i + 1);
        let b = layout_text(keys, fingers, chars, (n - 1) as nat);
        let c = layout_text(keys, fingers, chars, n);
        assert forall|x: int| 0 <= x < a.len() implies c[x] == a[x] by {
            assert(c.take(b.len() as int)[x] == b[x]);
            assert(b.take(a.len() as int)[x] == a[x]);
        }
        assert(c.take(a.len() as int) =~= a);
    }
}

} // verus!
