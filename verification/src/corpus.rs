//! A corpus: trigram counts in a dense cube, indexed by the corpus's characters.
use vstd::prelude::*;

use crate::data::{
    count_of, distinct_keys, insert_all, insert_entry, lemma_insert_entry, lookup, str_chars,
    trigram_entries, Data, DataError, Trigram,
};
use crate::optimizer::all_trigrams;
use itertools::Itertools;

verus! {

/// The elements of `s` in the order of their first occurrence, each once.
pub open spec fn first_occurrences(s: Seq<char>) -> Seq<char>
    decreases s.len(),
{
    if s.len() == 0 {
        Seq::empty()
    } else {
        let p = first_occurrences(s.drop_last());
        if p.contains(s.last()) {
            p
        } else {
            p.push(s.last())
        }
    }
}

/// `Itertools::unique`: the characters in the order of their first occurrence, each once.
#[verifier::external_body]
pub(crate) fn unique_chars(v: Vec<char>) -> (r: Vec<char>)
    ensures
        r@ == first_occurrences(v@),
{
    v.into_iter().unique().collect()
}

/// The first occurrences hold each character of `s` exactly once, and nothing else.
pub proof fn lemma_first_occurrences(s: Seq<char>)
    ensures
        first_occurrences(s).no_duplicates(),
        forall|c: char| #[trigger] first_occurrences(s).contains(c) <==> s.contains(c),
        first_occurrences(s).len() <= s.len(),
    decreases s.len(),
{
    if s.len() > 0 {
        let pre = s.drop_last();
        lemma_first_occurrences(pre);
        let p = first_occurrences(pre);
        let f = first_occurrences(s);
        assert forall|c: char| #[trigger] f.contains(c) <==> s.contains(c) by {
            if c == s.last() {
                assert(s[s.len() - 1] == c);
                if !p.contains(c) {
                    assert(f[f.len() - 1] == c);
                }
            } else {
                if s.contains(c) {
                    let i = choose|i: int| 0 <= i < s.len() && s[i] == c;
                    assert(pre[i] == c);
                    assert(p.contains(c));
                    let k = choose|k: int| 0 <= k < p.len() && p[k] == c;
                    assert(f[k] == c);
                }
                if f.contains(c) {
                    let k = choose|k: int| 0 <= k < f.len() && f[k] == c;
                    if k < p.len() {
                        assert(p[k] == c);
                    }
                    assert(p.contains(c));
                    assert(pre.contains(c));
                    let i = choose|i: int| 0 <= i < pre.len() && pre[i] == c;
                    assert(s[i] == c);
                }
            }
        }
    }
}

/// The characters of the trigrams, three by three, in order.
pub open spec fn trigram_chars(e: Seq<(Trigram, u32)>) -> Seq<char>
    decreases e.len(),
{
    if e.len() == 0 {
        Seq::empty()
    } else {
        trigram_chars(e.drop_last()) + seq![e.last().0[0], e.last().0[1], e.last().0[2]]
    }
}

/// The position of `c` in `chars`, the first should there be several.
pub open spec fn index_of(chars: Seq<char>, c: char) -> int {
    chars.index_of(c)
}

/// The index in the cube of the trigram whose characters have indices `a`, `b` and `c`.
pub open spec fn cube_index(n: int, a: int, b: int, c: int) -> int {
    a + b * n + c * n * n
}

/// Distinct index triples below `n` have distinct cube indices, all below `n * n * n`.
pub proof fn lemma_cube_index(n: int, a: int, b: int, c: int, x: int, y: int, z: int)
    requires
        0 <= a < n,
        0 <= b < n,
        0 <= c < n,
        0 <= x < n,
        0 <= y < n,
        0 <= z < n,
    ensures
        0 <= cube_index(n, a, b, c) < n * n * n,
        cube_index(n, a, b, c) == cube_index(n, x, y, z) ==> a == x && b == y && c == z,
{
    assert(0 <= cube_index(n, a, b, c) < n * n * n) by (nonlinear_arith)
        requires
            0 <= a < n,
            0 <= b < n,
            0 <= c < n,
    {
        assert(b * n <= (n - 1) * n);
        assert(c * n * n <= (n - 1) * n * n);
    }
    if cube_index(n, a, b, c) == cube_index(n, x, y, z) {
        assert(c == z) by (nonlinear_arith)
            requires
                0 <= a < n,
                0 <= b < n,
                0 <= x < n,
                0 <= y < n,
                0 <= c,
                0 <= z,
                a + b * n + c * n * n == x + y * n + z * n * n,
        {
            assert(a + b * n < n * n) by {
                assert(b * n <= (n - 1) * n);
            }
            assert(x + y * n < n * n) by {
                assert(y * n <= (n - 1) * n);
            }
            if c < z {
                assert(c * n * n + n * n <= z * n * n);
            }
            if z < c {
                assert(z * n * n + n * n <= c * n * n);
            }
        }
        assert(b == y) by (nonlinear_arith)
            requires
                0 <= a < n,
                0 <= x < n,
                0 <= b,
                0 <= y,
                a + b * n == x + y * n,
        {
            if b < y {
                assert(b * n + n <= y * n);
            }
            if y < b {
                assert(y * n + n <= b * n);
            }
        }
    }
}

/// The partial products of a cube index stay below the cube.
pub proof fn lemma_cube_bounds(n: int, a: int, b: int, c: int)
    requires
        0 <= a < n,
        0 <= b < n,
        0 <= c < n,
    ensures
        b * n < n * n,
        n * n <= n * n * n,
        c * n <= n * n,
        c * n * n < n * n * n,
        a + b * n + c * n * n < n * n * n,
{
    assert(b * n < n * n) by (nonlinear_arith)
        requires
            0 <= b < n,
    ;
    assert(c * n <= n * n) by (nonlinear_arith)
        requires
            0 <= c < n,
    ;
    assert(n * n <= n * n * n) by (nonlinear_arith)
        requires
            1 <= n,
    ;
    assert(c * n * n < n * n * n) by (nonlinear_arith)
        requires
            0 <= c < n,
    ;
    lemma_cube_index(n, a, b, c, a, b, c);
}

/// The sum of the counts.
pub open spec fn total_count(e: Seq<(Trigram, u32)>) -> nat
    decreases e.len(),
{
    if e.len() == 0 {
        0
    } else {
        total_count(e.drop_last()) + e.last().1 as nat
    }
}

/// Each character of each trigram occurs among the characters of the trigrams.
pub proof fn lemma_trigram_chars(e: Seq<(Trigram, u32)>, i: int, x: int)
    requires
        0 <= i < e.len(),
        0 <= x < 3,
    ensures
        trigram_chars(e).contains(e[i].0[x]),
        trigram_chars(e).len() == 3 * e.len(),
    decreases e.len(),
{
    lemma_trigram_chars_len(e);
    let pre = e.drop_last();
    let tc = trigram_chars(e);
    if i == e.len() - 1 {
        assert(tc[3 * i + x] == e[i].0[x]);
    } else {
        lemma_trigram_chars(pre, i, x);
        let k = choose|k: int| 0 <= k < trigram_chars(pre).len() && trigram_chars(pre)[k] == e[i].0[x];
        assert(tc[k] == e[i].0[x]);
    }
}

/// There are three characters per trigram.
pub proof fn lemma_trigram_chars_len(e: Seq<(Trigram, u32)>)
    ensures
        trigram_chars(e).len() == 3 * e.len(),
    decreases e.len(),
{
    if e.len() > 0 {
        lemma_trigram_chars_len(e.drop_last());
    }
}

/// Adding an entry with a new key sets the count of that key and keeps the others.
pub proof fn lemma_count_push_new(e: Seq<(Trigram, u32)>, t: Trigram, f: u32, u: Trigram)
    requires
        lookup(e, t) is None,
    ensures
        count_of(e.push((t, f)), u) == if u == t {
            f as nat
        } else {
            count_of(e, u)
        },
{
    crate::data::lemma_find_key(e, t);
    crate::data::lemma_find_key(e, u);
    let e2 = e.push((t, f));
    crate::data::lemma_find_key(e2, u);
    assert(e2.drop_last() == e);
}

/// The sum of the counts in `s`.
pub open spec fn cube_sum(s: Seq<u32>) -> nat
    decreases s.len(),
{
    if s.len() == 0 {
        0
    } else {
        cube_sum(s.drop_last()) + s.last() as nat
    }
}

/// Counts that are all zero sum to zero.
pub proof fn lemma_cube_sum_zeros(s: Seq<u32>)
    requires
        forall|i: int| 0 <= i < s.len() ==> s[i] == 0,
    ensures
        cube_sum(s) == 0,
    decreases s.len(),
{
    if s.len() > 0 {
        lemma_cube_sum_zeros(s.drop_last());
    }
}

/// Setting one count to `v` changes the sum by `v` less the old count.
pub proof fn lemma_cube_sum_update(s: Seq<u32>, i: int, v: u32)
    requires
        0 <= i < s.len(),
    ensures
        cube_sum(s.update(i, v)) + s[i] == cube_sum(s) + v,
    decreases s.len(),
{
    let u = s.update(i, v);
    if i == s.len() - 1 {
        assert(u.drop_last() == s.drop_last());
    } else {
        lemma_cube_sum_update(s.drop_last(), i, v);
        assert(u.drop_last() == s.drop_last().update(i, v));
    }
}

/// A corpus of trigram counts. The counts sit in a cube: the count of the trigram whose
/// characters have indices `a`, `b`, `c` in `chars` is at `a + b·n + c·n²`, for `n` characters.
#[derive(Clone)]
pub struct Corpus {
    pub(crate) name: String,
    pub(crate) chars: Vec<char>,
    pub(crate) trigrams: Vec<u32>,
    pub(crate) total: u64,
}

/// What can go wrong while loading, making or saving a corpus.
#[derive(Debug)]
pub enum CorpusError {
    /// The data could not be made or read.
    DataError(DataError),
    /// Reading or writing a file failed.
    IoError(std::io::Error),
}

impl Corpus {
    /// The characters, each once.
    pub closed spec fn spec_chars(&self) -> Seq<char> {
        self.chars@
    }

    /// The cube of counts.
    pub closed spec fn spec_trigrams(&self) -> Seq<u32> {
        self.trigrams@
    }

    /// The sum of all counts.
    pub closed spec fn spec_total(&self) -> nat {
        self.total as nat
    }

    /// The name.
    pub closed spec fn spec_name(&self) -> Seq<char> {
        self.name@
    }

    /// The cube holds one count per trigram of the characters, and no character occurs twice.
    pub open spec fn wf(&self) -> bool {
        let n = self.spec_chars().len();
        &&& self.spec_chars().no_duplicates()
        &&& self.spec_trigrams().len() == n * n * n
    }

    /// The count of the trigram whose characters have indices `a`, `b`, `c`.
    pub open spec fn count_at(&self, a: int, b: int, c: int) -> u32 {
        self.spec_trigrams()[cube_index(self.spec_chars().len() as int, a, b, c)]
    }

    /// The number of different characters; there are that many cubed trigram counts.
    pub fn len(&self) -> (n: usize)
        ensures
            n == self.spec_chars().len(),
    {
        self.chars.len()
    }

    /// The characters, each at its index.
    pub fn chars(&self) -> (r: &[char])
        ensures
            r@ == self.spec_chars(),
    {
        self.chars.as_slice()
    }

    /// The index of a character, if the corpus has it. The characters are kept once each in
    /// the order of their indices, and the index is found by a search over them, in place of a
    /// second table from characters to indices that would have to be kept in step with them.
    pub fn char_index(&self, c: char) -> (r: Option<usize>)
        requires
            self.wf(),
        ensures
            r is Some <==> self.spec_chars().contains(c),
            r matches Some(i) ==> i < self.spec_chars().len() && self.spec_chars()[i as int] == c,
    {
        let mut i: usize = 0;
        while i < self.chars.len()
            invariant
                i <= self.chars@.len(),
                forall|j: int| 0 <= j < i ==> self.chars@[j] != c,
            decreases self.chars@.len() - i,
        {
            if self.chars[i] == c {
                return Some(i);
            }
            i = i + 1;
        }
        None
    }

    /// The name.
    pub fn name(&self) -> (r: &str)
        ensures
            r@ == self.spec_name(),
    {
        self.name.as_str()
    }

    /// The sum of all counts.
    pub fn total(&self) -> (r: u64)
        ensures
            r == self.spec_total(),
    {
        self.total
    }

    /// The count of the trigram whose characters have the given indices.
    pub fn index(&self, index: (usize, usize, usize)) -> (r: u32)
        requires
            self.wf(),
            index.0 < self.spec_chars().len(),
            index.1 < self.spec_chars().len(),
            index.2 < self.spec_chars().len(),
        ensures
            r == self.count_at(index.0 as int, index.1 as int, index.2 as int),
    {
        let n = self.chars.len();
        let cube = self.trigrams.len();
        proof {
            lemma_cube_bounds(n as int, index.0 as int, index.1 as int, index.2 as int);
            lemma_cube_index(
                n as int,
                index.0 as int,
                index.1 as int,
                index.2 as int,
                index.0 as int,
                index.1 as int,
                index.2 as int,
            );
            assert(n * n * n == (n as int) * (n as int) * (n as int));
        }
        let i = index.0 + index.1 * n + index.2 * n * n;
        self.trigrams[i]
    }

    /// The corpus of some trigram data: its characters are those of the trigrams, in the order
    /// in which they first occur, and each trigram's count sits in the cube; the other counts
    /// are zero.
    pub fn from_data(data: Data) -> (r: Self)
        requires
            ({
                let n = first_occurrences(trigram_chars(data.entries())).len();
                n * n * n <= usize::MAX
            }),
            data.entries().len() <= u32::MAX,
        ensures
            r.wf(),
            r.spec_chars() == first_occurrences(trigram_chars(data.entries())),
            forall|a: int, b: int, c: int|
                0 <= a < r.spec_chars().len() && 0 <= b < r.spec_chars().len() && 0 <= c
                    < r.spec_chars().len() ==> #[trigger] r.count_at(a, b, c) == count_of(
                    data.entries(),
                    [r.spec_chars()[a], r.spec_chars()[b], r.spec_chars()[c]],
                ),
            r.spec_total() == total_count(data.entries()),
            r.spec_total() == cube_sum(r.spec_trigrams()),
            r.spec_name() == data.spec_name(),
    {
        let entries = data.trigrams();
        let ghost e = entries@;
        let mut flat: Vec<char> = Vec::new();
        let mut l: usize = 0;
        while l < entries.len()
            invariant
                e == entries@,
                l <= e.len(),
                flat@ == trigram_chars(e.take(l as int)),
            decreases e.len() - l,
        {
            let (t, _) = entries[l];
            flat.push(t[0]);
            flat.push(t[1]);
            flat.push(t[2]);
            proof {
                assert(e.take(l + 1).drop_last() == e.take(l as int));
            }
            l = l + 1;
        }
        assert(e.take(e.len() as int) == e);
        let chars = unique_chars(flat);
        proof {
            lemma_first_occurrences(trigram_chars(e));
        }
        let n = chars.len();
        proof {
            assert(e == data.entries());
            assert(n == first_occurrences(trigram_chars(data.entries())).len());
            assert(n * n * n <= usize::MAX);
            if n > 0 {
                lemma_cube_bounds(n as int, 0, 0, 0);
            }
        }
        assert(n * n <= usize::MAX) by {
            if n > 0 {
                lemma_cube_bounds(n as int, 0, 0, 0);
                assert((n as int) * (n as int) <= (n as int) * (n as int) * (n as int));
                assert(n * n * n <= usize::MAX);
            } else {
                assert(n * n == 0) by (nonlinear_arith)
                    requires
                        n == 0,
                ;
            }
        }
        let nn = n * n;
        let cube = nn * n;
        let mut trigrams: Vec<u32> = vec![0; cube];
        proof {
            assert forall|a: int, b: int, c: int|
                0 <= a < n && 0 <= b < n && 0 <= c < n implies #[trigger] trigrams@[cube_index(
                n as int,
                a,
                b,
                c,
            )] == count_of(e.take(0), [chars@[a], chars@[b], chars@[c]]) by {
                lemma_cube_index(n as int, a, b, c, a, b, c);
                assert(e.take(0).len() == 0);
            }
        }
        let mut total: u64 = 0;
        let mut l: usize = 0;
        proof {
            assert forall|i: int| 0 <= i < trigrams@.len() implies trigrams@[i] == 0 by {}
            lemma_cube_sum_zeros(trigrams@);
        }
        while l < entries.len()
            invariant
                total == cube_sum(trigrams@),
                e == entries@,
                distinct_keys(e),
                e.len() <= u32::MAX,
                chars@ == first_occurrences(trigram_chars(e)),
                chars@.no_duplicates(),
                forall|c: char| #[trigger] chars@.contains(c) <==> trigram_chars(e).contains(c),
                n == chars@.len(),
                cube == n * n * n,
                trigrams@.len() == cube,
                l <= e.len(),
                total == total_count(e.take(l as int)),
                total <= l * u32::MAX,
                forall|a: int, b: int, c: int|
                    0 <= a < n && 0 <= b < n && 0 <= c < n ==> #[trigger] trigrams@[cube_index(
                        n as int,
                        a,
                        b,
                        c,
                    )] == count_of(e.take(l as int), [chars@[a], chars@[b], chars@[c]]),
            decreases e.len() - l,
        {
            let (t, f) = entries[l];
            proof {
                lemma_trigram_chars(e, l as int, 0);
                lemma_trigram_chars(e, l as int, 1);
                lemma_trigram_chars(e, l as int, 2);
            }
            let i1 = position(&chars, t[0]);
            let i2 = position(&chars, t[1]);
            let i3 = position(&chars, t[2]);
            proof {
                lemma_cube_bounds(n as int, i1 as int, i2 as int, i3 as int);
                lemma_cube_index(n as int, i1 as int, i2 as int, i3 as int, 0, 0, 0);
                assert(cube_index(n as int, i1 as int, i2 as int, i3 as int) == i1 + i2 * n + i3 * n * n);
            }
            let idx = i1 + i2 * n + i3 * n * n;
            let ghost pre = e.take(l as int);
            proof {
                assert(e.take(l + 1) == pre.push((t, f)));
                crate::data::lemma_find_key(pre, t);
                if lookup(pre, t) is Some {
                    let k = crate::data::find_key(pre, t)->0;
                    assert(pre[k] == e[k]);
                    assert(e[k].0 == e[l as int].0);
                }
                assert(t =~= [chars@[i1 as int], chars@[i2 as int], chars@[i3 as int]]);
                assert forall|a: int, b: int, c: int|
                    0 <= a < n && 0 <= b < n && 0 <= c < n implies #[trigger] trigrams@.update(
                    idx as int,
                    f,
                )[cube_index(n as int, a, b, c)] == count_of(
                    e.take(l + 1),
                    [chars@[a], chars@[b], chars@[c]],
                ) by {
                    let u: Trigram = [chars@[a], chars@[b], chars@[c]];
                    lemma_count_push_new(pre, t, f, u);
                    lemma_cube_index(n as int, a, b, c, i1 as int, i2 as int, i3 as int);
                    if u == t {
                        assert(chars@[a] == chars@[i1 as int]);
                        assert(chars@[b] == chars@[i2 as int]);
                        assert(chars@[c] == chars@[i3 as int]);
                    }
                }
                assert(e.take(l + 1).drop_last() == pre);
            }
            proof {
                crate::data::lemma_find_key(pre, t);
                assert(lookup(pre, t) is None);
                assert(trigrams@[idx as int] == count_of(
                    pre,
                    [chars@[i1 as int], chars@[i2 as int], chars@[i3 as int]],
                ));
                lemma_cube_sum_update(trigrams@, idx as int, f);
            }
            trigrams.set(idx, f);
            total = total + f as u64;
            l = l + 1;
        }
        let name = data.into_name();
        Corpus { name, chars, trigrams, total }
    }

    /// The corpus of a text; see `Data::from_str` and `from_data`.
    pub fn from_str(s: &str) -> (r: Self)
        requires
            s@.len() + 2 <= usize::MAX,
            forall|t: Trigram| #[trigger] crate::data::occurrences(crate::data::counted_trigrams(s@), t)
                <= u32::MAX,
            crate::data::tally(crate::data::counted_trigrams(s@)).len() <= u32::MAX,
            ({
                let n = first_occurrences(trigram_chars(crate::data::tally(crate::data::counted_trigrams(s@)))).len();
                n * n * n <= usize::MAX
            }),
        ensures
            r.wf(),
            r.spec_chars() == first_occurrences(
                trigram_chars(crate::data::tally(crate::data::counted_trigrams(s@))),
            ),
            forall|a: int, b: int, c: int|
                0 <= a < r.spec_chars().len() && 0 <= b < r.spec_chars().len() && 0 <= c
                    < r.spec_chars().len() ==> #[trigger] r.count_at(a, b, c) == count_of(
                    crate::data::tally(crate::data::counted_trigrams(s@)),
                    [r.spec_chars()[a], r.spec_chars()[b], r.spec_chars()[c]],
                ),
            r.spec_total() == total_count(crate::data::tally(crate::data::counted_trigrams(s@))),
            r.spec_total() == cube_sum(r.spec_trigrams()),
            r.spec_name() == Seq::<char>::empty(),
    {
        let data = Data::from_str(s);
        Self::from_data(data)
    }
}

/// A text of at most `u32::MAX` characters meets what `Corpus::from_str` asks of its counts.
pub proof fn lemma_short_text_fits(s: Seq<char>)
    requires
        s.len() <= u32::MAX,
    ensures
        forall|t: Trigram| #[trigger] crate::data::occurrences(crate::data::counted_trigrams(s), t)
            <= u32::MAX,
        crate::data::tally(crate::data::counted_trigrams(s)).len() <= u32::MAX,
{
    crate::data::lemma_short_text_counts_fit(s);
    lemma_tally_len(crate::data::counted_trigrams(s));
}

/// A tally has at most one entry per trigram tallied.
pub proof fn lemma_tally_len(ts: Seq<Trigram>)
    ensures
        crate::data::tally(ts).len() <= ts.len(),
    decreases ts.len(),
{
    if ts.len() > 0 {
        lemma_tally_len(ts.drop_last());
        crate::data::lemma_tally_bounds(ts.drop_last());
        let e = crate::data::tally(ts.drop_last());
        let t = ts.last();
        let v: u32 = match lookup(e, t) {
            Some(v) => (v + 1) as u32,
            None => 1,
        };
        crate::data::lemma_insert_entry(e, t, v);
    }
}

/// The position of a character that occurs in `chars`.
fn position(chars: &Vec<char>, c: char) -> (i: usize)
    requires
        chars@.contains(c),
        chars@.no_duplicates(),
    ensures
        i < chars@.len(),
        chars@[i as int] == c,
{
    let mut i: usize = 0;
    while i < chars.len()
        invariant
            chars@.contains(c),
            i <= chars@.len(),
            forall|j: int| 0 <= j < i ==> chars@[j] != c,
        decreases chars@.len() - i,
    {
        if chars[i] == c {
            return i;
        }
        i = i + 1;
    }
    i
}

/// The triples of indices below `n` that never go down, in lexicographic order.
pub open spec fn nondecreasing_triples(n: nat) -> Seq<[usize; 3]> {
    all_trigrams(n).filter(|t: [usize; 3]| t[0] <= t[1] && t[1] <= t[2])
}

/// The characters of `chars` at the three indices of `t`.
pub open spec fn chars_at(chars: Seq<char>, t: [usize; 3]) -> Trigram {
    [chars[t[0] as int], chars[t[1] as int], chars[t[2] as int]]
}

/// `Itertools::combinations_with_replacement` with three items: for every triple of indices
/// into `chars` that never goes down, in lexicographic order, the characters at them.
#[verifier::external_body]
fn char_combinations(chars: &[char]) -> (r: Vec<Trigram>)
    ensures
        r@ == nondecreasing_triples(chars@.len()).map_values(|t: [usize; 3]| chars_at(chars@, t)),
{
    chars.iter().copied().combinations_with_replacement(3).map(|v| [v[0], v[1], v[2]]).collect()
}

/// The pairs of the `i`-th trigram and the `i`-th count, for as many as both have, those with
/// a count of zero left out.
pub open spec fn counted_pairs(combos: Seq<Trigram>, counts: Seq<u32>, len: nat) -> Seq<
    (Trigram, u32),
> {
    Seq::new(len, |i: int| (combos[i], counts[i])).filter(|p: (Trigram, u32)| p.1 > 0)
}

impl Data {
    /// The data of a corpus, under its name: the combinations of three of the corpus's
    /// characters that never go back in their order, each paired with the count at the same
    /// place in the cube, for as many places as both have; those paired with zero are left out.
    pub fn from_corpus(corpus: &Corpus) -> (d: Self)
        ensures
            d.spec_name() == corpus.spec_name(),
            ({
                let combos = nondecreasing_triples(corpus.spec_chars().len()).map_values(
                    |t: [usize; 3]| chars_at(corpus.spec_chars(), t),
                );
                let len = if combos.len() < corpus.spec_trigrams().len() {
                    combos.len()
                } else {
                    corpus.spec_trigrams().len()
                };
                d.entries() == insert_all(counted_pairs(combos, corpus.spec_trigrams(), len))
            }),
    {
        let combos = char_combinations(corpus.chars.as_slice());
        let counts = &corpus.trigrams;
        let len = if combos.len() < counts.len() {
            combos.len()
        } else {
            counts.len()
        };
        let ghost all = Seq::new(len as nat, |i: int| (combos@[i], counts@[i]));
        let ghost keep = |p: (Trigram, u32)| p.1 > 0;
        let mut m = crate::data::trigram_map_new();
        let mut i: usize = 0;
        assert(all.take(0).filter(keep) == Seq::<(Trigram, u32)>::empty()) by {
            reveal(Seq::filter);
        }
        while i < len
            invariant
                len <= combos@.len(),
                len <= counts@.len(),
                all == Seq::new(len as nat, |i: int| (combos@[i], counts@[i])),
                keep == (|p: (Trigram, u32)| p.1 > 0),
                i <= len,
                trigram_entries(m) == insert_all(all.take(i as int).filter(keep)),
                distinct_keys(trigram_entries(m)),
            decreases len - i,
        {
            let f = counts[i];
            let ghost prev = all.take(i as int).filter(keep);
            proof {
                let s = all.take(i + 1);
                assert(s.drop_last() == all.take(i as int));
                assert(s.last() == (combos@[i as int], f));
                reveal(Seq::filter);
                assert(s.filter(keep) == if f > 0 {
                    prev.push((combos@[i as int], f))
                } else {
                    prev
                });
            }
            if f > 0 {
                proof {
                    lemma_insert_entry(trigram_entries(m), combos@[i as int], f);
                    let q = prev.push((combos@[i as int], f));
                    assert(q.drop_last() == prev);
                }
                crate::data::trigram_map_insert(&mut m, combos[i], f);
            }
            i = i + 1;
        }
        assert(all.take(len as int) == all);
        Data::from_map(corpus.name.clone(), m)
    }
}

} // verus!
