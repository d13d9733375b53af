//! Trigram frequencies of a text, counted in the order of first occurrence.
use vstd::prelude::*;

use crate::REPLACEMENT_CHAR;
use core::cmp::Ordering;
use core::hash::BuildHasherDefault;
use fxhash::{FxBuildHasher, FxHasher};
use indexmap::IndexMap;

verus! {

/// The hasher of `fxhash`.
#[verifier::external_type_specification]
#[verifier::external_body]
pub struct ExFxHasher(FxHasher);

/// A hash builder that makes default hashers; `fxhash` builds its maps with one.
#[verifier::external_type_specification]
#[verifier::external_body]
#[verifier::reject_recursive_types(H)]
pub struct ExBuildHasherDefault<H>(BuildHasherDefault<H>);

/// The insertion-ordered map of `indexmap`.
#[verifier::external_type_specification]
#[verifier::external_body]
#[verifier::reject_recursive_types(K)]
#[verifier::reject_recursive_types(V)]
#[verifier::reject_recursive_types(S)]
pub struct ExIndexMap<K, V, S>(IndexMap<K, V, S>);

/// An insertion-ordered map that hashes with `fxhash`.
pub type FxIndexMap<K, V> = IndexMap<K, V, FxBuildHasher>;

/// A trigram: three characters.
pub type Trigram = [char; 3];

/// The entries of a trigram map, in the map's order.
pub uninterp spec fn trigram_entries(m: FxIndexMap<Trigram, u32>) -> Seq<(Trigram, u32)>;

/// No key occurs twice among the entries.
pub open spec fn distinct_keys(e: Seq<(Trigram, u32)>) -> bool {
    forall|i: int, j: int| 0 <= i < j < e.len() ==> e[i].0 != e[j].0
}

/// The index of the entry with key `t`, if there is one (the first, should there be several).
pub open spec fn find_key(e: Seq<(Trigram, u32)>, t: Trigram) -> Option<int>
    decreases e.len(),
{
    if e.len() == 0 {
        None
    } else if e.last().0 == t {
        match find_key(e.drop_last(), t) {
            Some(i) => Some(i),
            None => Some(e.len() - 1),
        }
    } else {
        find_key(e.drop_last(), t)
    }
}

/// The value stored under `t`, if any.
pub open spec fn lookup(e: Seq<(Trigram, u32)>, t: Trigram) -> Option<u32> {
    match find_key(e, t) {
        Some(i) => Some(e[i].1),
        None => None,
    }
}

/// What inserting `(t, v)` into an insertion-ordered map does to its entries: an entry with key
/// `t` keeps its place and takes the value `v`; without one, the pair goes at the end.
pub open spec fn insert_entry(e: Seq<(Trigram, u32)>, t: Trigram, v: u32) -> Seq<(Trigram, u32)> {
    match find_key(e, t) {
        Some(i) => e.update(i, (t, v)),
        None => e.push((t, v)),
    }
}

/// `IndexMap::default` with the `fxhash` hash builder: an empty map.
#[verifier::external_body]
pub(crate) fn trigram_map_new() -> (m: FxIndexMap<Trigram, u32>)
    ensures
        trigram_entries(m) == Seq::<(Trigram, u32)>::empty(),
{
    FxIndexMap::default()
}

/// `IndexMap::get`: the value stored under `t`, if any.
#[verifier::external_body]
fn trigram_map_get(m: &FxIndexMap<Trigram, u32>, t: &Trigram) -> (r: Option<u32>)
    ensures
        r == lookup(trigram_entries(*m), *t),
{
    m.get(t).copied()
}

/// `IndexMap::insert`: an entry with key `t` keeps its place and takes the value `v`;
/// without one, the pair goes at the end. The keys stay distinct.
#[verifier::external_body]
pub(crate) fn trigram_map_insert(m: &mut FxIndexMap<Trigram, u32>, t: Trigram, v: u32)
    ensures
        trigram_entries(*final(m)) == insert_entry(trigram_entries(*old(m)), t, v),
{
    m.insert(t, v);
}

/// `IndexMap::iter`: the entries in the map's order.
#[verifier::external_body]
fn trigram_map_entries(m: &FxIndexMap<Trigram, u32>) -> (r: Vec<(Trigram, u32)>)
    ensures
        r@ == trigram_entries(*m),
{
    m.iter().map(|(t, f)| (*t, *f)).collect()
}

/// `String::from_iter`: the string of the given characters.
#[verifier::external_body]
pub(crate) fn string_from_chars(chars: &[char]) -> (r: String)
    ensures
        r@ == chars@,
{
    String::from_iter(chars)
}

/// `str::chars`, collected: the characters of `s`.
#[verifier::external_body]
pub(crate) fn str_chars(s: &str) -> (r: Vec<char>)
    ensures
        r@ == s@,
{
    s.chars().collect()
}

/// `find_key` gives the first entry with the key, and `None` only when no entry has it.
pub proof fn lemma_find_key(e: Seq<(Trigram, u32)>, t: Trigram)
    ensures
        find_key(e, t) matches Some(i) ==> 0 <= i < e.len() && e[i].0 == t && forall|j: int|
            0 <= j < i ==> e[j].0 != t,
        find_key(e, t) is None ==> forall|j: int| 0 <= j < e.len() ==> e[j].0 != t,
    decreases e.len(),
{
    if e.len() > 0 {
        let p = e.drop_last();
        lemma_find_key(p, t);
        assert forall|j: int| 0 <= j < p.len() implies p[j] == e[j] by {}
    }
}

/// With distinct keys, the entry at index `i` is the one `find_key` finds for its key.
pub proof fn lemma_find_distinct(e: Seq<(Trigram, u32)>, i: int)
    requires
        distinct_keys(e),
        0 <= i < e.len(),
    ensures
        find_key(e, e[i].0) == Some(i),
{
    lemma_find_key(e, e[i].0);
}

/// Inserting keeps the keys distinct, and sets exactly the value of the inserted key.
pub proof fn lemma_insert_entry(e: Seq<(Trigram, u32)>, t: Trigram, v: u32)
    requires
        distinct_keys(e),
    ensures
        distinct_keys(insert_entry(e, t, v)),
        lookup(insert_entry(e, t, v), t) == Some(v),
        forall|u: Trigram| u != t ==> lookup(insert_entry(e, t, v), u) == lookup(e, u),
        insert_entry(e, t, v).len() == e.len() + (if lookup(e, t) is Some {
            0int
        } else {
            1int
        }),
{
    lemma_find_key(e, t);
    let e2 = insert_entry(e, t, v);
    lemma_find_key(e2, t);
    match find_key(e, t) {
        Some(i) => {
            assert(e2[i].0 == t);
            let k = find_key(e2, t)->0;
            if k < i {
                assert(e2[k] == e[k]);
            }
            assert(k == i);
        },
        None => {
            assert(e2[e.len() as int].0 == t);
            let k = find_key(e2, t)->0;
            if k < e.len() {
                assert(e2[k] == e[k]);
            }
            assert(k == e.len());
        },
    }
    assert forall|u: Trigram| u != t implies lookup(e2, u) == lookup(e, u) by {
        lemma_find_key(e, u);
        lemma_find_key(e2, u);
        match find_key(e, u) {
            Some(i) => {
                assert(e2[i].0 == u);
                if find_key(e2, u) != Some(i) {
                    let k = find_key(e2, u)->0;
                    assert(e2[k].0 == u);
                    assert(k < i);
                }
            },
            None => {
                if find_key(e2, u) is Some {
                    let k = find_key(e2, u)->0;
                    assert(e2[k].0 == u);
                    assert(k < e.len());
                }
            },
        }
    }
}

/// Adds `by` to the count that `e` keeps for `t`; a new key starts at `by`.
pub open spec fn bump(e: Seq<(Trigram, u32)>, t: Trigram, by: u32) -> Seq<(Trigram, u32)> {
    match lookup(e, t) {
        Some(v) => insert_entry(e, t, (v + by) as u32),
        None => insert_entry(e, t, by),
    }
}

/// The counts of the trigrams in `ts`, each trigram once, in the order in which the trigrams
/// first occur.
pub open spec fn tally(ts: Seq<Trigram>) -> Seq<(Trigram, u32)>
    decreases ts.len(),
{
    if ts.len() == 0 {
        Seq::empty()
    } else {
        bump(tally(ts.drop_last()), ts.last(), 1)
    }
}

/// The trigrams that a sliding window counts as it reads `rest` after `c1` and `c2`: a
/// trigram that holds the replacement character is not counted, and its third character is
/// dropped while the window stays where it is.
pub open spec fn window_trigrams(c1: char, c2: char, rest: Seq<char>) -> Seq<Trigram>
    decreases rest.len(),
{
    if rest.len() == 0 {
        Seq::empty()
    } else {
        let c3 = rest[0];
        if c1 == REPLACEMENT_CHAR || c2 == REPLACEMENT_CHAR || c3 == REPLACEMENT_CHAR {
            window_trigrams(c1, c2, rest.drop_first())
        } else {
            seq![[c1, c2, c3]] + window_trigrams(c2, c3, rest.drop_first())
        }
    }
}

/// The trigrams counted in a text: the text gets two spaces at its end, and the window starts
/// on its first two characters.
pub open spec fn counted_trigrams(s: Seq<char>) -> Seq<Trigram> {
    let x = s + seq![' ', ' '];
    window_trigrams(x[0], x[1], x.skip(2))
}

/// A window counts at most one trigram per character it reads.
pub proof fn lemma_window_len(c1: char, c2: char, rest: Seq<char>)
    ensures
        window_trigrams(c1, c2, rest).len() <= rest.len(),
    decreases rest.len(),
{
    if rest.len() > 0 {
        lemma_window_len(c1, c2, rest.drop_first());
        lemma_window_len(rest[0], rest[0], rest.drop_first());
        lemma_window_len(c2, rest[0], rest.drop_first());
    }
}

/// Every count in a tally is at most the number of trigrams tallied, and the keys are distinct.
pub proof fn lemma_tally_bounds(ts: Seq<Trigram>)
    ensures
        distinct_keys(tally(ts)),
        forall|i: int| 0 <= i < tally(ts).len() ==> tally(ts)[i].1 <= ts.len(),
    decreases ts.len(),
{
    if ts.len() > 0 {
        let pre = ts.drop_last();
        lemma_tally_bounds(pre);
        let e = tally(pre);
        let t = ts.last();
        lemma_find_key(e, t);
        let v: u32 = match lookup(e, t) {
            Some(v) => (v + 1) as u32,
            None => 1,
        };
        lemma_insert_entry(e, t, v);
        let e2 = insert_entry(e, t, v);
        assert forall|i: int| 0 <= i < e2.len() implies e2[i].1 <= ts.len() by {
            lemma_find_key(e, t);
            match find_key(e, t) {
                Some(k) => {
                    if i != k {
                        assert(e2[i] == e[i]);
                    }
                },
                None => {
                    if i < e.len() {
                        assert(e2[i] == e[i]);
                    }
                },
            }
        }
    }
}

/// The count that entries keep for `t`; zero when `t` has no entry.
pub open spec fn count_of(e: Seq<(Trigram, u32)>, t: Trigram) -> nat {
    match lookup(e, t) {
        Some(v) => v as nat,
        None => 0,
    }
}

/// The counts of `rest` added, entry by entry in order, to those of `e`.
pub open spec fn merge(e: Seq<(Trigram, u32)>, rest: Seq<(Trigram, u32)>) -> Seq<(Trigram, u32)>
    decreases rest.len(),
{
    if rest.len() == 0 {
        e
    } else {
        merge(bump(e, rest[0].0, rest[0].1), rest.drop_first())
    }
}

/// Bumping the count of `t0` by `by` adds `by` to the count of `t0` and leaves the others.
pub proof fn lemma_bump(e: Seq<(Trigram, u32)>, t0: Trigram, by: u32)
    requires
        distinct_keys(e),
        count_of(e, t0) + by <= u32::MAX,
    ensures
        distinct_keys(bump(e, t0, by)),
        forall|t: Trigram|
            #[trigger] count_of(bump(e, t0, by), t) == count_of(e, t) + (if t == t0 {
                by as nat
            } else {
                0
            }),
{
    let v: u32 = match lookup(e, t0) {
        Some(v) => (v + by) as u32,
        None => by,
    };
    lemma_insert_entry(e, t0, v);
}

/// The count of `t` in entries with distinct keys is that of the first entry if it has key
/// `t`, plus that of the other entries.
pub proof fn lemma_count_first(e: Seq<(Trigram, u32)>, t: Trigram)
    requires
        distinct_keys(e),
        e.len() > 0,
    ensures
        count_of(e, t) == (if e[0].0 == t {
            e[0].1 as nat
        } else {
            0
        }) + count_of(e.drop_first(), t),
{
    let r = e.drop_first();
    lemma_find_key(e, t);
    lemma_find_key(r, t);
    assert forall|j: int| 0 <= j < r.len() implies r[j] == e[j + 1] by {}
    if e[0].0 == t {
        lemma_find_distinct(e, 0);
        if find_key(r, t) is Some {
            let k = find_key(r, t)->0;
            assert(e[k + 1].0 == t);
        }
    } else {
        match find_key(e, t) {
            Some(i) => {
                assert(i > 0);
                assert(r[i - 1].0 == t);
                let k = find_key(r, t)->0;
                if k < i - 1 {
                    assert(e[k + 1].0 == t);
                }
                if k > i - 1 {
                    assert(r[i - 1].0 == t);
                }
            },
            None => {
                if find_key(r, t) is Some {
                    let k = find_key(r, t)->0;
                    assert(e[k + 1].0 == t);
                }
            },
        }
    }
}

/// Merging adds the counts: the count of every trigram after the merge is its count in `e`
/// plus its count in `rest`.
pub proof fn lemma_merge_counts(e: Seq<(Trigram, u32)>, rest: Seq<(Trigram, u32)>)
    requires
        distinct_keys(e),
        distinct_keys(rest),
        forall|t: Trigram| count_of(e, t) + count_of(rest, t) <= u32::MAX,
    ensures
        distinct_keys(merge(e, rest)),
        forall|t: Trigram| #[trigger]
            count_of(merge(e, rest), t) == count_of(e, t) + count_of(rest, t),
    decreases rest.len(),
{
    if rest.len() > 0 {
        let t0 = rest[0].0;
        let by = rest[0].1;
        let r = rest.drop_first();
        lemma_count_first(rest, t0);
        lemma_bump(e, t0, by);
        let e2 = bump(e, t0, by);
        assert(distinct_keys(r)) by {
            assert forall|i: int, j: int| 0 <= i < j < r.len() implies r[i].0 != r[j].0 by {
                assert(r[i] == rest[i + 1] && r[j] == rest[j + 1]);
            }
        }
        assert forall|t: Trigram| count_of(e2, t) + count_of(r, t) <= u32::MAX by {
            lemma_count_first(rest, t);
        }
        lemma_merge_counts(e2, r);
        assert forall|t: Trigram| #[trigger]
            count_of(merge(e, rest), t) == count_of(e, t) + count_of(rest, t) by {
            lemma_count_first(rest, t);
        }
    }
}

/// Whether trigram `a` comes before trigram `b` character by character.
pub open spec fn trigram_lt(a: Trigram, b: Trigram) -> bool {
    ||| a[0] < b[0]
    ||| a[0] == b[0] && a[1] < b[1]
    ||| a[0] == b[0] && a[1] == b[1] && a[2] < b[2]
}

/// The order of sorted data: higher counts first, and among equal counts the trigrams in
/// character order.
pub open spec fn entry_before(a: (Trigram, u32), b: (Trigram, u32)) -> bool {
    a.1 > b.1 || (a.1 == b.1 && trigram_lt(a.0, b.0))
}

/// No entry comes before one that precedes it.
pub open spec fn sorted_entries(e: Seq<(Trigram, u32)>) -> bool {
    forall|i: int, j: int| 0 <= i < j < e.len() ==> !entry_before(e[j], e[i])
}

/// The comparison that sorts data: higher counts first, then trigrams in character order.
pub fn entry_order(t1: &Trigram, f1: &u32, t2: &Trigram, f2: &u32) -> (r: Ordering)
    ensures
        r == Ordering::Less <==> entry_before((*t1, *f1), (*t2, *f2)),
        r == Ordering::Greater <==> entry_before((*t2, *f2), (*t1, *f1)),
        r == Ordering::Equal <==> (*t1 == *t2 && *f1 == *f2),
{
    if *f1 > *f2 {
        Ordering::Less
    } else if *f1 < *f2 {
        Ordering::Greater
    } else if t1[0] < t2[0] {
        Ordering::Less
    } else if t1[0] > t2[0] {
        Ordering::Greater
    } else if t1[1] < t2[1] {
        Ordering::Less
    } else if t1[1] > t2[1] {
        Ordering::Greater
    } else if t1[2] < t2[2] {
        Ordering::Less
    } else if t1[2] > t2[2] {
        Ordering::Greater
    } else {
        assert(*t1 =~= *t2);
        Ordering::Equal
    }
}

/// `IndexMap::sort_by` with `entry_order`, a total order: a stable sort, so the same entries
/// come back, in the order of `entry_before`. The keys stay distinct.
#[verifier::external_body]
fn trigram_map_sort(m: &mut FxIndexMap<Trigram, u32>)
    ensures
        trigram_entries(*final(m)).to_multiset() == trigram_entries(*old(m)).to_multiset(),
        sorted_entries(trigram_entries(*final(m))),
        distinct_keys(trigram_entries(*final(m))),
{
    m.sort_by(|t1, f1, t2, f2| entry_order(t1, f1, t2, f2))
}

/// Two lists of entries with distinct keys that hold the same entries keep the same counts.
pub proof fn lemma_same_entries_same_counts(e1: Seq<(Trigram, u32)>, e2: Seq<(Trigram, u32)>)
    requires
        distinct_keys(e1),
        distinct_keys(e2),
        e1.to_multiset() == e2.to_multiset(),
    ensures
        forall|t: Trigram| #[trigger] lookup(e1, t) == lookup(e2, t),
{
    e1.to_multiset_ensures();
    e2.to_multiset_ensures();
    assert forall|t: Trigram| #[trigger] lookup(e1, t) == lookup(e2, t) by {
        lemma_find_key(e1, t);
        lemma_find_key(e2, t);
        match find_key(e1, t) {
            Some(i) => {
                assert(e1.contains(e1[i]));
                assert(e1.to_multiset().count(e1[i]) > 0);
                assert(e2.to_multiset().count(e1[i]) > 0);
                assert(e2.contains(e1[i]));
                let k = choose|k: int| 0 <= k < e2.len() && e2[k] == e1[i];
                lemma_find_distinct(e2, k);
            },
            None => {
                if find_key(e2, t) is Some {
                    let k = find_key(e2, t)->0;
                    assert(e2.contains(e2[k]));
                    assert(e2.to_multiset().count(e2[k]) > 0);
                    assert(e1.to_multiset().count(e2[k]) > 0);
                    assert(e1.contains(e2[k]));
                }
            },
        }
    }
}

/// How many times `t` occurs in `ts`.
pub open spec fn occurrences(ts: Seq<Trigram>, t: Trigram) -> nat
    decreases ts.len(),
{
    if ts.len() == 0 {
        0
    } else {
        occurrences(ts.drop_last(), t) + (if ts.last() == t {
            1nat
        } else {
            0
        })
    }
}

/// A tally counts every trigram as many times as it occurs.
pub proof fn lemma_tally_counts(ts: Seq<Trigram>)
    requires
        forall|t: Trigram| #[trigger] occurrences(ts, t) <= u32::MAX,
    ensures
        forall|t: Trigram| #[trigger] count_of(tally(ts), t) == occurrences(ts, t),
    decreases ts.len(),
{
    if ts.len() > 0 {
        let pre = ts.drop_last();
        assert forall|t: Trigram| #[trigger] occurrences(pre, t) <= u32::MAX by {
            assert(occurrences(pre, t) <= occurrences(ts, t));
        }
        lemma_tally_counts(pre);
        lemma_tally_bounds(pre);
        assert(occurrences(ts, ts.last()) == occurrences(pre, ts.last()) + 1);
        lemma_bump(tally(pre), ts.last(), 1);
    }
}

/// A text of at most `u32::MAX` characters counts no trigram more often than a `u32` holds.
pub proof fn lemma_short_text_counts_fit(s: Seq<char>)
    requires
        s.len() <= u32::MAX,
    ensures
        forall|t: Trigram| #[trigger] occurrences(counted_trigrams(s), t) <= u32::MAX,
        counted_trigrams(s).len() <= s.len(),
{
    let x = s + seq![' ', ' '];
    lemma_window_len(x[0], x[1], x.skip(2));
    assert forall|t: Trigram| #[trigger] occurrences(counted_trigrams(s), t) <= u32::MAX by {
        lemma_occurrences_bound(counted_trigrams(s), t);
    }
}

/// The occurrences in two sequences, one after the other, add up.
pub proof fn lemma_occurrences_concat(a: Seq<Trigram>, b: Seq<Trigram>, t: Trigram)
    ensures
        occurrences(a + b, t) == occurrences(a, t) + occurrences(b, t),
    decreases b.len(),
{
    if b.len() > 0 {
        lemma_occurrences_concat(a, b.drop_last(), t);
        assert((a + b).drop_last() == a + b.drop_last());
        assert((a + b).last() == b.last());
    } else {
        assert(a + b == a);
    }
}

/// A trigram occurs at most as many times as there are trigrams.
pub proof fn lemma_occurrences_bound(ts: Seq<Trigram>, t: Trigram)
    ensures
        occurrences(ts, t) <= ts.len(),
    decreases ts.len(),
{
    if ts.len() > 0 {
        lemma_occurrences_bound(ts.drop_last(), t);
    }
}

/// `std::io::Error`.
#[verifier::external_type_specification]
#[verifier::external_body]
pub struct ExIoError(std::io::Error);

/// `std::str::Utf8Error`.
#[verifier::external_type_specification]
#[verifier::external_body]
pub struct ExUtf8Error(std::str::Utf8Error);

/// `serde_json::Error`.
#[verifier::external_type_specification]
#[verifier::external_body]
pub struct ExJsonError(serde_json::Error);

/// What can go wrong while making, reading or writing trigram data.
#[derive(Debug)]
pub enum DataError {
    /// A trigram was not exactly three characters.
    TrigramConversionError,
    /// Reading or writing a file failed.
    IoError(std::io::Error),
    /// A file could not be split into chunks.
    ChunkerInitError,
    /// The chunks could not be made.
    ChunkerChunkError,
    /// A chunk was not UTF-8.
    UTF8Error(std::str::Utf8Error),
    /// The path was neither a file nor a directory.
    FaultyPathError,
    /// The JSON was not valid data.
    JsonError(serde_json::Error),
    /// Data must have a name to be saved.
    NamelessDataError,
}

/// A trigram from its written form: exactly three characters.
pub fn trigram_from_str(s: &str) -> (r: Result<Trigram, DataError>)
    ensures
        r is Ok <==> s@.len() == 3,
        r matches Ok(t) ==> t@ == s@,
        r matches Err(e) ==> e is TrigramConversionError,
{
    let chars = str_chars(s);
    if chars.len() == 3 {
        let t = [chars[0], chars[1], chars[2]];
        assert(t@ =~= s@);
        Ok(t)
    } else {
        Err(DataError::TrigramConversionError)
    }
}

/// The characters that `std::str::from_utf8` finds in some bytes; `None` where the bytes are
/// not UTF-8.
pub uninterp spec fn utf8_chars(bytes: Seq<u8>) -> Option<Seq<char>>;

/// `std::str::from_utf8`: the text that the bytes encode, or the error where they are not
/// UTF-8.
#[verifier::external_body]
fn utf8_str(bytes: &[u8]) -> (r: Result<&str, std::str::Utf8Error>)
    ensures
        r matches Ok(s) ==> utf8_chars(bytes@) == Some(s@),
        r is Err ==> utf8_chars(bytes@) is None,
{
    std::str::from_utf8(bytes)
}

/// The characters of a chunk of a file, when it is UTF-8; else the UTF-8 error.
pub fn decode_chunk(bytes: &[u8]) -> (r: Result<Vec<char>, DataError>)
    ensures
        r is Ok <==> utf8_chars(bytes@) is Some,
        r matches Ok(v) ==> utf8_chars(bytes@) == Some(v@),
        r matches Err(e) ==> e is UTF8Error,
{
    match utf8_str(bytes) {
        Ok(s) => Ok(str_chars(s)),
        Err(e) => Err(DataError::UTF8Error(e)),
    }
}

/// The written form of a trigram: its three characters.
pub fn trigram_to_string(t: Trigram) -> (r: String)
    ensures
        r@ == t@,
{
    string_from_chars(&t)
}

/// The trigram frequencies of a text, with the text's name.
pub struct Data {
    pub(crate) name: String,
    pub(crate) trigrams: FxIndexMap<Trigram, u32>,
}

impl Data {
    /// No trigram occurs twice.
    #[verifier::type_invariant]
    spec fn inv(&self) -> bool {
        distinct_keys(trigram_entries(self.trigrams))
    }

    /// The trigrams and their counts, in the map's order.
    pub closed spec fn entries(&self) -> Seq<(Trigram, u32)> {
        trigram_entries(self.trigrams)
    }

    /// The name.
    pub closed spec fn spec_name(&self) -> Seq<char> {
        self.name@
    }

    /// Data with the given name and map, whose keys are distinct.
    pub(crate) fn from_map(name: String, trigrams: FxIndexMap<Trigram, u32>) -> (d: Self)
        requires
            distinct_keys(trigram_entries(trigrams)),
        ensures
            d.entries() == trigram_entries(trigrams),
            d.spec_name() == name@,
    {
        Data { name, trigrams }
    }

    /// Nameless data without trigrams.
    pub fn empty() -> (d: Self)
        ensures
            d.entries() == Seq::<(Trigram, u32)>::empty(),
            d.spec_name() == Seq::<char>::empty(),
    {
        Data { name: String::new(), trigrams: trigram_map_new() }
    }

    /// The count of a trigram, if it occurs.
    pub fn get(&self, t: Trigram) -> (r: Option<u32>)
        ensures
            r == lookup(self.entries(), t),
    {
        trigram_map_get(&self.trigrams, &t)
    }

    /// The trigrams and their counts, in order.
    pub fn trigrams(&self) -> (r: Vec<(Trigram, u32)>)
        ensures
            r@ == self.entries(),
            distinct_keys(r@),
    {
        proof {
            use_type_invariant(self);
        }
        trigram_map_entries(&self.trigrams)
    }

    /// The name.
    pub fn name(&self) -> (r: &str)
        ensures
            r@ == self.spec_name(),
    {
        self.name.as_str()
    }

    /// The trigram counts of a sequence of characters: a window of three characters slides over
    /// the characters followed by two spaces; each trigram it shows is counted, except those
    /// that hold the replacement character, which are skipped with the window left in place.
    pub fn from_chars(chars: &[char]) -> (d: Self)
        requires
            chars@.len() + 2 <= usize::MAX,
            forall|t: Trigram| #[trigger] occurrences(counted_trigrams(chars@), t) <= u32::MAX,
        ensures
            d.entries() == tally(counted_trigrams(chars@)),
            d.spec_name() == Seq::<char>::empty(),
    {
        let ghost x = chars@ + seq![' ', ' '];
        let mut m = trigram_map_new();
        let n = chars.len() + 2;
        let c1_init = if 0 < chars.len() { chars[0] } else { ' ' };
        let c2_init = if 1 < chars.len() { chars[1] } else { ' ' };
        let mut c1 = c1_init;
        let mut c2 = c2_init;
        assert(c1 == x[0] && c2 == x[1]);
        let ghost mut done: Seq<Trigram> = Seq::empty();
        let mut i: usize = 2;
        proof {
            assert(counted_trigrams(chars@) == done + window_trigrams(c1, c2, x.skip(2)));
        }
        while i < n
            invariant
                n == chars@.len() + 2,
                forall|t: Trigram| #[trigger] occurrences(counted_trigrams(chars@), t) <= u32::MAX,
                x == chars@ + seq![' ', ' '],
                x.len() == n,
                2 <= i <= n,
                counted_trigrams(chars@) == done + window_trigrams(c1, c2, x.skip(i as int)),
                done.len() <= i - 2,
                trigram_entries(m) == tally(done),
            decreases n - i,
        {
            let c3 = if i < chars.len() { chars[i] } else { ' ' };
            assert(c3 == x[i as int]);
            assert(x.skip(i as int)[0] == c3);
            assert(x.skip(i as int).drop_first() == x.skip(i + 1));
            if c1 == REPLACEMENT_CHAR || c2 == REPLACEMENT_CHAR || c3 == REPLACEMENT_CHAR {
                i = i + 1;
            } else {
                let t: Trigram = [c1, c2, c3];
                proof {
                    lemma_tally_bounds(done);
                    lemma_find_key(tally(done), t);
                    let rest = window_trigrams(c2, c3, x.skip(i + 1));
                    assert(seq![t] + rest == window_trigrams(c1, c2, x.skip(i as int)));
                    lemma_occurrences_concat(done, seq![t] + rest, t);
                    lemma_occurrences_concat(seq![t], rest, t);
                    assert(seq![t].drop_last() == Seq::<Trigram>::empty());
                    assert(occurrences(Seq::<Trigram>::empty(), t) == 0);
                    assert(seq![t].last() == t);
                    assert(occurrences(seq![t], t) == 1);
                    assert forall|u: Trigram| #[trigger] occurrences(done, u) <= u32::MAX by {
                        lemma_occurrences_concat(done, window_trigrams(c1, c2, x.skip(i as int)), u);
                    }
                    lemma_tally_counts(done);
                    assert(count_of(tally(done), t) + 1 <= u32::MAX);
                }
                match trigram_map_get(&m, &t) {
                    Some(v) => {
                        trigram_map_insert(&mut m, t, v + 1);
                    },
                    None => {
                        trigram_map_insert(&mut m, t, 1);
                    },
                }
                proof {
                    let old_done = done;
                    done = done.push(t);
                    assert(done.drop_last() == old_done);
                    assert(seq![t] + window_trigrams(c2, c3, x.skip(i + 1)) == window_trigrams(
                        c1,
                        c2,
                        x.skip(i as int),
                    ));
                    assert(old_done + window_trigrams(c1, c2, x.skip(i as int)) == done
                        + window_trigrams(c2, c3, x.skip(i + 1)));
                }
                c1 = c2;
                c2 = c3;
                i = i + 1;
            }
        }
        proof {
            assert(x.skip(n as int).len() == 0);
            assert(done + window_trigrams(c1, c2, x.skip(n as int)) == done);
            lemma_tally_bounds(done);
        }
        Data { name: String::new(), trigrams: m }
    }

    /// The trigram counts of a text; see `from_chars`.
    pub fn from_str(s: &str) -> (d: Self)
        requires
            s@.len() + 2 <= usize::MAX,
            forall|t: Trigram| #[trigger] occurrences(counted_trigrams(s@), t) <= u32::MAX,
        ensures
            d.entries() == tally(counted_trigrams(s@)),
            d.spec_name() == Seq::<char>::empty(),
    {
        let chars = str_chars(s);
        Self::from_chars(chars.as_slice())
    }

    /// The counts of `rhs` added to those of `self`: trigrams of `rhs` that `self` lacks come
    /// after those of `self`, in their order in `rhs`. The name stays that of `self`.
    pub fn add(self, rhs: Self) -> (r: Self)
        requires
            forall|t: Trigram| count_of(self.entries(), t) + count_of(rhs.entries(), t) <= u32::MAX,
        ensures
            r.entries() == merge(self.entries(), rhs.entries()),
            forall|t: Trigram| #[trigger]
                count_of(r.entries(), t) == count_of(self.entries(), t) + count_of(rhs.entries(), t),
            r.spec_name() == self.spec_name(),
    {
        proof {
            use_type_invariant(&self);
            use_type_invariant(&rhs);
            lemma_merge_counts(self.entries(), rhs.entries());
        }
        let Data { name, trigrams } = self;
        let mut m = trigrams;
        let rest = trigram_map_entries(&rhs.trigrams);
        let ghost e0 = trigram_entries(m);
        let mut i: usize = 0;
        proof {
            assert(rest@.skip(0) == rest@);
        }
        while i < rest.len()
            invariant
                i <= rest@.len(),
                distinct_keys(rest@),
                distinct_keys(e0),
                forall|t: Trigram| count_of(e0, t) + count_of(rest@, t) <= u32::MAX,
                merge(e0, rest@) == merge(trigram_entries(m), rest@.skip(i as int)),
                distinct_keys(trigram_entries(m)),
                forall|t: Trigram| #[trigger]
                    count_of(trigram_entries(m), t) + count_of(rest@.skip(i as int), t)
                        == count_of(e0, t) + count_of(rest@, t),
            decreases rest@.len() - i,
        {
            let (t, f) = rest[i];
            let ghost cur = trigram_entries(m);
            let ghost tail = rest@.skip(i as int);
            proof {
                assert(tail[0] == (t, f));
                assert(tail.drop_first() == rest@.skip(i + 1));
                assert(distinct_keys(tail)) by {
                    assert forall|a: int, b: int| 0 <= a < b < tail.len() implies tail[a].0
                        != tail[b].0 by {
                        assert(tail[a] == rest@[a + i] && tail[b] == rest@[b + i]);
                    }
                }
                lemma_count_first(tail, t);
                lemma_bump(cur, t, f);
                lemma_find_key(cur, t);
                assert forall|u: Trigram| #[trigger]
                    count_of(bump(cur, t, f), u) + count_of(rest@.skip(i + 1), u) == count_of(e0, u)
                        + count_of(rest@, u) by {
                    lemma_count_first(tail, u);
                }
            }
            match trigram_map_get(&m, &t) {
                Some(v) => {
                    trigram_map_insert(&mut m, t, v + f);
                },
                None => {
                    trigram_map_insert(&mut m, t, f);
                },
            }
            i = i + 1;
        }
        proof {
            assert(rest@.skip(i as int).len() == 0);
        }
        Data { name, trigrams: m }
    }

    /// The same data, sorted: higher counts first, equal counts in the character order of their
    /// trigrams.
    pub fn sorted(self) -> (r: Self)
        ensures
            r.entries().to_multiset() == self.entries().to_multiset(),
            sorted_entries(r.entries()),
            forall|t: Trigram| #[trigger] lookup(r.entries(), t) == lookup(self.entries(), t),
            r.spec_name() == self.spec_name(),
    {
        proof {
            use_type_invariant(&self);
        }
        let Data { name, trigrams } = self;
        let mut m = trigrams;
        trigram_map_sort(&mut m);
        proof {
            lemma_same_entries_same_counts(trigram_entries(m), self.entries());
        }
        Data { name, trigrams: m }
    }

    /// The name, when there is one, for saving; saving nameless data fails.
    pub fn save_name(&self) -> (r: Result<&str, DataError>)
        ensures
            r is Ok <==> self.spec_name().len() > 0,
            r matches Ok(n) ==> n@ == self.spec_name(),
            r matches Err(e) ==> e is NamelessDataError,
    {
        if self.name.as_str().is_empty() {
            Err(DataError::NamelessDataError)
        } else {
            Ok(self.name.as_str())
        }
    }

    /// The name, taken out of the data.
    pub fn into_name(self) -> (r: String)
        ensures
            r@ == self.spec_name(),
    {
        self.name
    }

    /// The same data under another name.
    pub fn with_name(self, name: String) -> (r: Self)
        ensures
            r.entries() == self.entries(),
            r.spec_name() == name@,
    {
        proof {
            use_type_invariant(&self);
        }
        let Data { name: _, trigrams } = self;
        Data { name, trigrams }
    }

    /// Data from its written form: a name and, in order, each trigram as a string with its
    /// count. Each trigram must be exactly three characters; a trigram written twice keeps its
    /// first place and takes its last count.
    pub fn from_entries(name: String, pairs: &[(String, u32)]) -> (r: Result<Self, DataError>)
        ensures
            r is Ok <==> all_written_trigrams(pairs@),
            r matches Ok(d) ==> d.entries() == insert_all(read_entries(pairs@)) && d.spec_name()
                == name@,
            r matches Err(e) ==> e is TrigramConversionError,
    {
        let mut m = trigram_map_new();
        let mut i: usize = 0;
        while i < pairs.len()
            invariant
                i <= pairs@.len(),
                all_written_trigrams(pairs@.take(i as int)),
                trigram_entries(m) == insert_all(read_entries(pairs@.take(i as int))),
                distinct_keys(trigram_entries(m)),
            decreases pairs@.len() - i,
        {
            let t = match trigram_from_str(pairs[i].0.as_str()) {
                Ok(t) => t,
                Err(e) => {
                    assert(pairs@[i as int].0@.len() != 3);
                    return Err(e);
                },
            };
            proof {
                lemma_insert_entry(trigram_entries(m), t, pairs@[i as int].1);
                let p = pairs@.take(i + 1);
                assert(p.drop_last() == pairs@.take(i as int));
                assert(read_entries(p).drop_last() == read_entries(pairs@.take(i as int)));
                assert(read_entries(p).last() == (t, pairs@[i as int].1));
            }
            trigram_map_insert(&mut m, t, pairs[i].1);
            i = i + 1;
        }
        assert(pairs@.take(pairs@.len() as int) == pairs@);
        Ok(Data { name, trigrams: m })
    }

    /// The written form of the data: its name and, in order, each trigram as a string with its
    /// count.
    pub fn to_entries(&self) -> (r: (String, Vec<(String, u32)>))
        ensures
            r.0@ == self.spec_name(),
            r.1@.len() == self.entries().len(),
            forall|i: int|
                0 <= i < r.1@.len() ==> (#[trigger] r.1@[i]).0@ == self.entries()[i].0@ && r.1@[i].1
                    == self.entries()[i].1,
    {
        let e = self.trigrams();
        let mut out: Vec<(String, u32)> = Vec::new();
        let mut i: usize = 0;
        while i < e.len()
            invariant
                e@ == self.entries(),
                i <= e@.len(),
                out@.len() == i,
                forall|j: int|
                    0 <= j < i ==> (#[trigger] out@[j]).0@ == e@[j].0@ && out@[j].1 == e@[j].1,
            decreases e@.len() - i,
        {
            let (t, f) = e[i];
            out.push((trigram_to_string(t), f));
            i = i + 1;
        }
        (self.name.clone(), out)
    }
}

/// Whether each written trigram is exactly three characters.
pub open spec fn all_written_trigrams(pairs: Seq<(String, u32)>) -> bool {
    forall|i: int| 0 <= i < pairs.len() ==> (#[trigger] pairs[i]).0@.len() == 3
}

/// The written trigrams read as trigrams, each with its count.
pub open spec fn read_entries(pairs: Seq<(String, u32)>) -> Seq<(Trigram, u32)> {
    pairs.map_values(|p: (String, u32)| ([p.0@[0], p.0@[1], p.0@[2]], p.1))
}

/// The entries of an empty map after inserting each pair of `e` in turn.
pub open spec fn insert_all(e: Seq<(Trigram, u32)>) -> Seq<(Trigram, u32)>
    decreases e.len(),
{
    if e.len() == 0 {
        Seq::empty()
    } else {
        insert_entry(insert_all(e.drop_last()), e.last().0, e.last().1)
    }
}

/// Inserting entries whose keys are distinct, in turn, into an empty map gives them back in
/// their order.
pub proof fn lemma_insert_all_distinct(e: Seq<(Trigram, u32)>)
    requires
        distinct_keys(e),
    ensures
        insert_all(e) == e,
    decreases e.len(),
{
    if e.len() > 0 {
        let p = e.drop_last();
        assert(distinct_keys(p));
        lemma_insert_all_distinct(p);
        lemma_find_key(p, e.last().0);
        assert forall|j: int| 0 <= j < p.len() implies p[j].0 != e.last().0 by {
            assert(p[j] == e[j]);
        }
        assert(p.push(e.last()) == e);
    }
}

/// Reading back the written form of data gives the data: the written trigrams are three
/// characters each, and inserting them in turn gives the entries again, in their order.
pub proof fn lemma_written_round_trip(e: Seq<(Trigram, u32)>, pairs: Seq<(String, u32)>)
    requires
        distinct_keys(e),
        pairs.len() == e.len(),
        forall|i: int|
            0 <= i < pairs.len() ==> (#[trigger] pairs[i]).0@ == e[i].0@ && pairs[i].1 == e[i].1,
    ensures
        all_written_trigrams(pairs),
        insert_all(read_entries(pairs)) == e,
{
    assert forall|i: int| 0 <= i < pairs.len() implies (#[trigger] pairs[i]).0@.len() == 3 by {
        assert(e[i].0@.len() == 3);
    }
    assert forall|i: int| 0 <= i < pairs.len() implies read_entries(pairs)[i] == e[i] by {
        let t = e[i].0;
        assert(pairs[i].0@ == t@);
        assert(t@[0] == t[0] && t@[1] == t[1] && t@[2] == t[2]);
        assert([pairs[i].0@[0], pairs[i].0@[1], pairs[i].0@[2]] == t);
    }
    assert(read_entries(pairs) == e);
    lemma_insert_all_distinct(e);
}

} // verus!
