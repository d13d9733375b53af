//! Refining a text before its trigrams are counted: each character is replaced by the
//! characters that a rule gives for it.
use vstd::prelude::*;

use crate::{REPEAT_KEY, REPLACEMENT_CHAR, SHIFT_CHAR};
use fxhash::FxHashMap;
use sliding_window_alt::SlidingWindow;

verus! {

/// The window of `sliding_window_alt`: the last items pushed to it.
#[verifier::external_type_specification]
#[verifier::external_body]
#[verifier::reject_recursive_types(T)]
pub struct ExSlidingWindow<T: Clone>(SlidingWindow<T>);

/// What a window holds, the newest item first.
pub uninterp spec fn window_contents(w: SlidingWindow<char>) -> Seq<char>;

/// `SlidingWindow::new`: a window of `size` items (at least one), all `init`.
#[verifier::external_body]
fn window_new(size: usize, init: char) -> (w: SlidingWindow<char>)
    ensures
        window_contents(w) == Seq::new(if size < 1 { 1 } else { size as nat }, |_i: int| init),
{
    SlidingWindow::new(size, init)
}

/// `SlidingWindow::push`: `c` becomes the newest item, and the oldest one is forgotten.
#[verifier::external_body]
fn window_push(w: &mut SlidingWindow<char>, c: char)
    requires
        window_contents(*old(w)).len() >= 1,
    ensures
        window_contents(*final(w)) == seq![c] + window_contents(*old(w)).take(
            window_contents(*old(w)).len() - 1,
        ),
{
    w.push(c)
}

/// `SlidingWindow::index`: the item `i` places behind the newest.
#[verifier::external_body]
fn window_get(w: &SlidingWindow<char>, i: usize) -> (c: char)
    requires
        i < window_contents(*w).len(),
    ensures
        c == window_contents(*w)[i as int],
{
    w[i]
}

/// The characters that a rule table gives, as sequences.
pub open spec fn rules_of(m: Map<char, Vec<char>>) -> Map<char, Seq<char>> {
    Map::new(|k: char| m.contains_key(k), |k: char| m[k]@)
}

/// `HashMap::insert` on a table of `fxhash`: the rule for `k` becomes `v`.
#[verifier::external_body]
fn rules_insert(m: &mut FxHashMap<char, Vec<char>>, k: char, v: Vec<char>)
    ensures
        final(m)@ == old(m)@.insert(k, v),
{
    m.insert(k, v);
}

/// `HashMap::get` on a table of `fxhash`, cloned: the rule for `k`, if there is one.
#[verifier::external_body]
fn rules_get(m: &FxHashMap<char, Vec<char>>, k: char) -> (r: Option<Vec<char>>)
    ensures
        r is Some <==> m@.contains_key(k),
        r matches Some(v) ==> v@ == m@[k]@,
{
    m.get(&k).cloned()
}

/// `HashMap::default` on a table of `fxhash`: an empty table.
#[verifier::external_body]
fn rules_new() -> (r: FxHashMap<char, Vec<char>>)
    ensures
        r@.dom().is_empty(),
{
    FxHashMap::default()
}

/// What `char::to_uppercase` gives for a character.
pub uninterp spec fn uppercase_of(c: char) -> Seq<char>;

/// `char::to_uppercase`, collected.
#[verifier::external_body]
fn char_uppercase(c: char) -> (r: Vec<char>)
    ensures
        r@ == uppercase_of(c),
{
    c.to_uppercase().collect()
}

/// A table with the rule of a conversion from `p.0` to `p.1`.
pub open spec fn convert_rule(r: Map<char, Seq<char>>, p: (char, char)) -> Map<char, Seq<char>> {
    r.insert(p.0, seq![p.1])
}

/// A table with the rule of a dead key: `p.0` is typed as the dead key, then `p.1`.
pub open spec fn dead_key_rule(dead: char, r: Map<char, Seq<char>>, p: (char, char)) -> Map<
    char,
    Seq<char>,
> {
    r.insert(p.0, seq![dead, p.1])
}

/// A table with the rules of a lower and upper case pair `p`: the upper case is typed as shift
/// and the lower case; with `lower`, the lower case is kept as it is.
pub open spec fn uppercase_rule(lower: bool, r: Map<char, Seq<char>>, p: (char, char)) -> Map<
    char,
    Seq<char>,
> {
    if lower {
        r.insert(p.0, seq![p.0]).insert(p.1, seq![SHIFT_CHAR, p.0])
    } else {
        r.insert(p.1, seq![SHIFT_CHAR, p.0])
    }
}

/// A table that keeps `c`; with `upper`, also its upper case, when that is one other character,
/// as shift and `c`.
pub open spec fn include_rule(upper: bool, r: Map<char, Seq<char>>, c: char) -> Map<char, Seq<char>> {
    let kept = r.insert(c, seq![c]);
    let up = uppercase_of(c);
    if upper && up.len() == 1 && up[0] != c {
        kept.insert(up[0], seq![SHIFT_CHAR, c])
    } else {
        kept
    }
}

/// Including a character gives it the rule that keeps it as it is, and its upper case, where
/// that is one other character and upper cases are asked for, the rule of shift and the
/// character; every other rule stays.
pub proof fn lemma_include_rule(upper: bool, m: Map<char, Seq<char>>, c: char)
    ensures
        include_rule(upper, m, c).contains_key(c),
        include_rule(upper, m, c)[c] == seq![c],
        upper && uppercase_of(c).len() == 1 && uppercase_of(c)[0] != c ==> {
            &&& include_rule(upper, m, c).contains_key(uppercase_of(c)[0])
            &&& include_rule(upper, m, c)[uppercase_of(c)[0]] == seq![SHIFT_CHAR, c]
        },
        forall|k: char|
            k != c && !(upper && uppercase_of(c) == seq![k]) ==> {
                &&& #[trigger] include_rule(upper, m, c).contains_key(k) == m.contains_key(k)
                &&& m.contains_key(k) ==> include_rule(upper, m, c)[k] == m[k]
            },
{
    let up = uppercase_of(c);
    if upper && up.len() == 1 && up[0] != c {
        assert forall|k: char| k != c && !(upper && uppercase_of(c) == seq![k]) implies k != up[0] by {
            if k == up[0] {
                assert(up == seq![k]);
            }
        }
    }
}

/// After including characters in turn, a character keeps the rule that keeps it as it is,
/// unless a later included character, other than itself, has it as its one-character upper
/// case and upper cases are asked for.
pub proof fn lemma_include_keeps_own(upper: bool, m: Map<char, Seq<char>>, cs: Seq<char>, i: int)
    requires
        0 <= i < cs.len(),
        forall|j: int|
            i < j < cs.len() ==> !(upper && #[trigger] uppercase_of(cs[j]) == seq![cs[i]] && cs[j]
                != cs[i]),
    ensures
        cs.fold_left(m, |r: Map<char, Seq<char>>, c: char| include_rule(upper, r, c)).contains_key(
            cs[i],
        ),
        cs.fold_left(m, |r: Map<char, Seq<char>>, c: char| include_rule(upper, r, c))[cs[i]]
            == seq![cs[i]],
    decreases cs.len(),
{
    let f = |r: Map<char, Seq<char>>, c: char| include_rule(upper, r, c);
    let pre = cs.drop_last();
    let c = cs.last();
    let before = pre.fold_left(m, f);
    assert(cs.fold_left(m, f) == include_rule(upper, before, c));
    lemma_include_rule(upper, before, c);
    if i < cs.len() - 1 {
        assert forall|j: int| i < j < pre.len() implies !(upper && #[trigger] uppercase_of(pre[j])
            == seq![pre[i]] && pre[j] != pre[i]) by {
            assert(pre[j] == cs[j]);
        }
        lemma_include_keeps_own(upper, m, pre, i);
        assert(pre[i] == cs[i]);
        if cs[i] != c {
            assert(!(upper && uppercase_of(cs[cs.len() - 1]) == seq![cs[i]]));
        }
    }
}

/// The characters of `s`, with a replacement character after them.
pub open spec fn with_end(s: Seq<char>) -> Seq<char> {
    s.push(REPLACEMENT_CHAR)
}

/// What a refiner makes of character `c` read after `prev`: the repeat key for a repeat when it
/// is enabled, else the rule for `c`, else the replacement character.
pub open spec fn refine_char(
    rules: Map<char, Seq<char>>,
    repeat_key: bool,
    prev: char,
    c: char,
) -> Seq<char> {
    if repeat_key && prev == c {
        seq![REPEAT_KEY]
    } else if rules.contains_key(c) {
        rules[c]
    } else {
        seq![REPLACEMENT_CHAR]
    }
}

/// The refinement of each character of `s` and of the replacement character that ends it; the
/// first character is read after a replacement character.
pub open spec fn refine_all(rules: Map<char, Seq<char>>, repeat_key: bool, s: Seq<char>) -> Seq<
    Seq<char>,
> {
    let x = with_end(s);
    Seq::new(
        x.len(),
        |i: int|
            refine_char(
                rules,
                repeat_key,
                if i == 0 {
                    REPLACEMENT_CHAR
                } else {
                    x[i - 1]
                },
                x[i],
            ),
    )
}

/// A table of rules for refining a text.
pub struct CorpusRefiner {
    longest_rule: usize,
    map: FxHashMap<char, Vec<char>>,
    repeat_key: bool,
    raw: bool,
}

/// Builds a `CorpusRefiner`, rule by rule.
pub struct CorpusRefinerBuilder {
    longest_rule: usize,
    map: FxHashMap<char, Vec<char>>,
    repeat_key: bool,
}

/// A refiner that keeps every character as it is.
pub struct RawCorpusRefiner;

impl CorpusRefiner {
    /// The rules.
    pub closed spec fn rules(&self) -> Map<char, Seq<char>> {
        rules_of(self.map@)
    }

    /// Whether repeats become the repeat key.
    pub closed spec fn spec_repeat_key(&self) -> bool {
        self.repeat_key
    }

    /// Whether the refiner keeps every character as it is.
    pub closed spec fn spec_raw(&self) -> bool {
        self.raw
    }

    /// The window is at least one character long, and two when repeats are looked for.
    pub closed spec fn wf(&self) -> bool {
        &&& self.longest_rule >= 1
        &&& self.repeat_key ==> self.longest_rule >= 2
    }

    /// The length of the window, in characters.
    pub closed spec fn spec_longest_rule(&self) -> nat {
        self.longest_rule as nat
    }

    /// A builder without rules.
    pub fn new() -> (b: CorpusRefinerBuilder)
        ensures
            b.rules() == Map::<char, Seq<char>>::empty(),
            !b.spec_repeat_key(),
            b.spec_longest_rule() == 1,
            b.wf(),
    {
        let m = rules_new();
        proof {
            assert(rules_of(m@) =~= Map::<char, Seq<char>>::empty()) by {
                assert(forall|k: char| !m@.dom().contains(k));
            }
        }
        CorpusRefinerBuilder { longest_rule: 1, map: m, repeat_key: false }
    }

    /// The refiner that keeps every character as it is.
    pub fn raw() -> RawCorpusRefiner {
        RawCorpusRefiner
    }

    /// A window for refining, as long as the longest rule, filled with replacement characters.
    pub fn new_window(&self) -> (w: SlidingWindow<char>)
        requires
            self.wf(),
        ensures
            window_contents(w) == Seq::new(self.spec_longest_rule(), |_i: int| REPLACEMENT_CHAR),
            window_contents(w).len() >= 1,
            self.spec_repeat_key() ==> window_contents(w).len() >= 2,
            window_contents(w)[0] == REPLACEMENT_CHAR,
    {
        window_new(self.longest_rule, REPLACEMENT_CHAR)
    }

    /// Refines one character `c`, read after the newest character of `window`; `c` becomes the
    /// newest character of `window`.
    pub fn refine_next(&self, window: &mut SlidingWindow<char>, c: char) -> (r: Vec<char>)
        requires
            self.wf(),
            window_contents(*old(window)).len() >= 1,
            self.spec_repeat_key() ==> window_contents(*old(window)).len() >= 2,
        ensures
            self.spec_raw() ==> r@ == seq![c],
            !self.spec_raw() ==> r@ == refine_char(
                self.rules(),
                self.spec_repeat_key(),
                window_contents(*old(window))[0],
                c,
            ),
            self.spec_raw() ==> *final(window) == *old(window),
            !self.spec_raw() ==> window_contents(*final(window)) == seq![c] + window_contents(
                *old(window),
            ).take(window_contents(*old(window)).len() - 1),
    {
        if self.raw {
            return vec![c];
        }
        let ghost before = window_contents(*window);
        window_push(window, c);
        let ghost after = window_contents(*window);
        if self.repeat_key {
            let w0 = window_get(window, 0);
            let w1 = window_get(window, 1);
            proof {
                assert(after.len() == before.len());
                assert(w1 == after[1]);
                assert(after[1] == before[0]);
            }
            if w0 == w1 {
                return vec![REPEAT_KEY];
            }
        }
        match rules_get(&self.map, c) {
            Some(to) => to,
            None => vec![REPLACEMENT_CHAR],
        }
    }

    /// Refines a text: each of its characters, and a replacement character after them, becomes
    /// what its rule gives (see `refine_char`); a raw refiner keeps each as it is.
    pub fn refine(&self, chars: &[char]) -> (r: Vec<Vec<char>>)
        requires
            self.wf(),
            chars@.len() < usize::MAX,
        ensures
            r@.len() == chars@.len() + 1,
            self.spec_raw() ==> forall|i: int| 0 <= i < r@.len() ==> #[trigger] r@[i]@ == seq![
                with_end(chars@)[i],
            ],
            !self.spec_raw() ==> forall|i: int|
                0 <= i < r@.len() ==> #[trigger] r@[i]@ == refine_all(
                    self.rules(),
                    self.spec_repeat_key(),
                    chars@,
                )[i],
    {
        let ghost x = with_end(chars@);
        let mut window = self.new_window();
        let mut out: Vec<Vec<char>> = Vec::new();
        let mut i: usize = 0;
        let n = chars.len() + 1;
        while i < n
            invariant
                self.wf(),
                n == chars@.len() + 1,
                x == with_end(chars@),
                x.len() == n,
                i <= n,
                out@.len() == i,
                window_contents(window).len() >= 1,
                self.spec_repeat_key() ==> window_contents(window).len() >= 2,
                !self.spec_raw() ==> window_contents(window)[0] == (if i == 0 {
                    REPLACEMENT_CHAR
                } else {
                    x[i - 1]
                }),
                self.spec_raw() ==> forall|j: int| 0 <= j < i ==> #[trigger] out@[j]@ == seq![x[j]],
                !self.spec_raw() ==> forall|j: int|
                    0 <= j < i ==> #[trigger] out@[j]@ == refine_all(
                        self.rules(),
                        self.spec_repeat_key(),
                        chars@,
                    )[j],
            decreases n - i,
        {
            let c = if i < chars.len() {
                chars[i]
            } else {
                REPLACEMENT_CHAR
            };
            assert(c == x[i as int]);
            let ghost before = window_contents(window);
            let piece = self.refine_next(&mut window, c);
            proof {
                if !self.spec_raw() {
                    assert(window_contents(window)[0] == c);
                    assert(window_contents(window).len() == before.len());
                }
            }
            out.push(piece);
            i = i + 1;
        }
        out
    }
}

impl CorpusRefinerBuilder {
    /// The rules so far.
    pub closed spec fn rules(&self) -> Map<char, Seq<char>> {
        rules_of(self.map@)
    }

    /// The length of the window that a refiner built now would use, in characters.
    pub closed spec fn spec_longest_rule(&self) -> nat {
        self.longest_rule as nat
    }

    /// Whether repeats will become the repeat key.
    pub closed spec fn spec_repeat_key(&self) -> bool {
        self.repeat_key
    }

    /// The window is at least one character long, and two when repeats are looked for.
    pub closed spec fn wf(&self) -> bool {
        &&& self.longest_rule >= 1
        &&& self.repeat_key ==> self.longest_rule >= 2
    }

    /// Adds the rule `k` → `v`, replacing any rule for `k`.
    fn add_rule(&mut self, k: char, v: Vec<char>)
        ensures
            final(self).wf() == old(self).wf(),
            final(self).rules() == old(self).rules().insert(k, v@),
            final(self).repeat_key == old(self).repeat_key,
            final(self).longest_rule == old(self).longest_rule,
    {
        rules_insert(&mut self.map, k, v);
        proof {
            assert(rules_of(self.map@) =~= rules_of(old(self).map@).insert(k, v@));
        }
    }

    /// For each pair, the first character is typed as the dead key, then the second.
    pub fn dead_key(&mut self, from_to: &[(char, char)], dead_key: char) -> (r: &mut Self)
        ensures
            r.rules() == from_to@.fold_left(
                old(self).rules(),
                |m: Map<char, Seq<char>>, p: (char, char)| dead_key_rule(dead_key, m, p),
            ),
            r.spec_repeat_key() == old(self).spec_repeat_key(),
            r.wf() == old(self).wf(),
            r.spec_longest_rule() == old(self).spec_longest_rule(),
            *final(self) == *final(r),
    {
        let mut i: usize = 0;
        while i < from_to.len()
            invariant
                i <= from_to@.len(),
                self.rules() == from_to@.take(i as int).fold_left(
                    old(self).rules(),
                    |m: Map<char, Seq<char>>, p: (char, char)| dead_key_rule(dead_key, m, p),
                ),
                self.repeat_key == old(self).repeat_key,
                self.longest_rule == old(self).longest_rule,
            decreases from_to@.len() - i,
        {
            let (from, to) = from_to[i];
            let v = vec![dead_key, to];
            assert(v@ =~= seq![dead_key, to]);
            self.add_rule(from, v);
            proof {
                assert(from_to@.take(i + 1).drop_last() == from_to@.take(i as int));
            }
            i = i + 1;
        }
        assert(from_to@.take(from_to@.len() as int) == from_to@);
        self
    }

    /// For each pair of a lower and an upper case character, the upper case is typed as shift
    /// and the lower case; with `include_lowercase_versions`, the lower case is kept as well.
    pub fn with_uppercase(&mut self, lower_upper: &[(char, char)], include_lowercase_versions: bool) -> (r: &mut Self)
        ensures
            r.rules() == lower_upper@.fold_left(
                old(self).rules(),
                |m: Map<char, Seq<char>>, p: (char, char)|
                    uppercase_rule(include_lowercase_versions, m, p),
            ),
            r.spec_repeat_key() == old(self).spec_repeat_key(),
            r.wf() == old(self).wf(),
            r.spec_longest_rule() == old(self).spec_longest_rule(),
            *final(self) == *final(r),
    {
        let mut i: usize = 0;
        while i < lower_upper.len()
            invariant
                i <= lower_upper@.len(),
                self.rules() == lower_upper@.take(i as int).fold_left(
                    old(self).rules(),
                    |m: Map<char, Seq<char>>, p: (char, char)|
                        uppercase_rule(include_lowercase_versions, m, p),
                ),
                self.repeat_key == old(self).repeat_key,
                self.longest_rule == old(self).longest_rule,
            decreases lower_upper@.len() - i,
        {
            let (lower, upper) = lower_upper[i];
            if include_lowercase_versions {
                let v = vec![lower];
                assert(v@ =~= seq![lower]);
                self.add_rule(lower, v);
            }
            let v = vec![SHIFT_CHAR, lower];
            assert(v@ =~= seq![SHIFT_CHAR, lower]);
            self.add_rule(upper, v);
            proof {
                assert(lower_upper@.take(i + 1).drop_last() == lower_upper@.take(i as int));
            }
            i = i + 1;
        }
        assert(lower_upper@.take(lower_upper@.len() as int) == lower_upper@);
        self
    }

    /// For each pair, the first character becomes the second.
    pub fn convert(&mut self, from_to: &[(char, char)]) -> (r: &mut Self)
        ensures
            r.rules() == from_to@.fold_left(
                old(self).rules(),
                |m: Map<char, Seq<char>>, p: (char, char)| convert_rule(m, p),
            ),
            r.spec_repeat_key() == old(self).spec_repeat_key(),
            r.wf() == old(self).wf(),
            r.spec_longest_rule() == old(self).spec_longest_rule(),
            *final(self) == *final(r),
    {
        let mut i: usize = 0;
        while i < from_to.len()
            invariant
                i <= from_to@.len(),
                self.rules() == from_to@.take(i as int).fold_left(
                    old(self).rules(),
                    |m: Map<char, Seq<char>>, p: (char, char)| convert_rule(m, p),
                ),
                self.repeat_key == old(self).repeat_key,
                self.longest_rule == old(self).longest_rule,
            decreases from_to@.len() - i,
        {
            let (from, to) = from_to[i];
            let v = vec![to];
            assert(v@ =~= seq![to]);
            self.add_rule(from, v);
            proof {
                assert(from_to@.take(i + 1).drop_last() == from_to@.take(i as int));
            }
            i = i + 1;
        }
        assert(from_to@.take(from_to@.len() as int) == from_to@);
        self
    }

    /// Keeps each character as it is; with `include_uppercase_versions`, its upper case too,
    /// typed as shift and the character, when the upper case is one other character.
    pub fn include_chars(&mut self, included: &[char], include_uppercase_versions: bool) -> (r: &mut Self)
        ensures
            r.rules() == included@.fold_left(
                old(self).rules(),
                |m: Map<char, Seq<char>>, c: char| include_rule(include_uppercase_versions, m, c),
            ),
            r.spec_repeat_key() == old(self).spec_repeat_key(),
            r.wf() == old(self).wf(),
            r.spec_longest_rule() == old(self).spec_longest_rule(),
            *final(self) == *final(r),
    {
        let mut i: usize = 0;
        while i < included.len()
            invariant
                i <= included@.len(),
                self.rules() == included@.take(i as int).fold_left(
                    old(self).rules(),
                    |m: Map<char, Seq<char>>, c: char| include_rule(include_uppercase_versions, m, c),
                ),
                self.repeat_key == old(self).repeat_key,
                self.longest_rule == old(self).longest_rule,
            decreases included@.len() - i,
        {
            let inc = included[i];
            let v = vec![inc];
            assert(v@ =~= seq![inc]);
            self.add_rule(inc, v);
            if include_uppercase_versions {
                let upper = char_uppercase(inc);
                if upper.len() == 1 && upper[0] != inc {
                    let u = vec![SHIFT_CHAR, inc];
                    assert(u@ =~= seq![SHIFT_CHAR, inc]);
                    self.add_rule(upper[0], u);
                }
            }
            proof {
                assert(included@.take(i + 1).drop_last() == included@.take(i as int));
            }
            i = i + 1;
        }
        assert(included@.take(included@.len() as int) == included@);
        self
    }

    /// Keeps the space.
    pub fn include_space(&mut self) -> (r: &mut Self)
        ensures
            r.rules() == old(self).rules().insert(' ', seq![' ']),
            r.spec_repeat_key() == old(self).spec_repeat_key(),
            r.wf() == old(self).wf(),
            r.spec_longest_rule() == old(self).spec_longest_rule(),
            *final(self) == *final(r),
    {
        let v = vec![' '];
        assert(v@ =~= seq![' ']);
        self.add_rule(' ', v);
        self
    }

    /// Keeps the space, the newline and the tab.
    pub fn include_ascii_whitespace(&mut self) -> (r: &mut Self)
        ensures
            r.rules() == old(self).rules().insert(' ', seq![' ']).insert('\n', seq!['\n']).insert(
                '\t',
                seq!['\t'],
            ),
            r.spec_repeat_key() == old(self).spec_repeat_key(),
            r.wf() == old(self).wf(),
            r.spec_longest_rule() == old(self).spec_longest_rule(),
            *final(self) == *final(r),
    {
        let v = vec![' '];
        assert(v@ =~= seq![' ']);
        self.add_rule(' ', v);
        let v = vec!['\n'];
        assert(v@ =~= seq!['\n']);
        self.add_rule('\n', v);
        let v = vec!['\t'];
        assert(v@ =~= seq!['\t']);
        self.add_rule('\t', v);
        self
    }

    /// Keeps the punctuation of a QWERTY keyboard and types its shifted characters as shift and
    /// the unshifted one.
    pub fn include_qwerty_punct_casings(&mut self) -> (r: &mut Self)
        ensures
            r.rules() == qwerty_punct_pairs().fold_left(
                old(self).rules(),
                |m: Map<char, Seq<char>>, p: (char, char)| uppercase_rule(true, m, p),
            ),
            r.spec_repeat_key() == old(self).spec_repeat_key(),
            r.wf() == old(self).wf(),
            r.spec_longest_rule() == old(self).spec_longest_rule(),
            *final(self) == *final(r),
    {
        let pairs = qwerty_punct();
        self.with_uppercase(pairs.as_slice(), true)
    }

    /// Turns typographic punctuation into its plain form: single quotes and the acute accent
    /// into the apostrophe, dashes into the hyphen, the division sign into the slash. Then, for
    /// each of `«`, `»`, `“`, `”` in turn taken as the lower case of the apostrophe, the
    /// apostrophe is typed as shift and that quote; the last, `”`, is the rule that stays, and
    /// the guillemets and double quotes themselves get no rule.
    pub fn normalize_miscellaneous_punct(&mut self) -> (r: &mut Self)
        ensures
            r.rules() == misc_upper_pairs().fold_left(
                misc_convert_pairs().fold_left(
                    old(self).rules(),
                    |m: Map<char, Seq<char>>, p: (char, char)| convert_rule(m, p),
                ),
                |m: Map<char, Seq<char>>, p: (char, char)| uppercase_rule(false, m, p),
            ),
            r.spec_repeat_key() == old(self).spec_repeat_key(),
            r.wf() == old(self).wf(),
            r.spec_longest_rule() == old(self).spec_longest_rule(),
            *final(self) == *final(r),
    {
        let conv = misc_convert();
        let upper = misc_upper();
        self.convert(conv.as_slice()).with_uppercase(upper.as_slice(), false)
    }

    /// Turns repeats into the repeat key, or not; the window grows to two characters.
    pub fn repeat_key(&mut self, enable: bool) -> (r: &mut Self)
        ensures
            r.rules() == old(self).rules(),
            r.spec_repeat_key() == enable,
            r.spec_longest_rule() == if old(self).spec_longest_rule() < 2 {
                2
            } else {
                old(self).spec_longest_rule()
            },
            old(self).wf() ==> r.wf(),
            *final(self) == *final(r),
    {
        self.repeat_key = enable;
        if self.longest_rule < 2 {
            self.longest_rule = 2;
        }
        self
    }

    /// The refiner with the rules so far; the builder is left without rules.
    pub fn build(&mut self) -> (r: CorpusRefiner)
        ensures
            r.rules() == old(self).rules(),
            r.spec_repeat_key() == old(self).spec_repeat_key(),
            !r.spec_raw(),
            r.spec_longest_rule() == old(self).spec_longest_rule(),
            old(self).wf() ==> r.wf(),
            final(self).rules() == Map::<char, Seq<char>>::empty(),
            final(self).spec_repeat_key() == old(self).spec_repeat_key(),
            final(self).spec_longest_rule() == old(self).spec_longest_rule(),
            final(self).wf() == old(self).wf(),
    {
        let mut map = rules_new();
        std::mem::swap(&mut map, &mut self.map);
        proof {
            assert(rules_of(self.map@) =~= Map::<char, Seq<char>>::empty()) by {
                assert(forall|k: char| !self.map@.dom().contains(k));
            }
        }
        CorpusRefiner {
            longest_rule: self.longest_rule,
            map,
            repeat_key: self.repeat_key,
            raw: false,
        }
    }
}

/// The punctuation pairs of a QWERTY keyboard: unshifted and shifted.
pub open spec fn qwerty_punct_pairs() -> Seq<(char, char)> {
    seq![
        ('`', '~'),
        ('1', '!'),
        ('2', '@'),
        ('3', '#'),
        ('4', '$'),
        ('5', '%'),
        ('6', '^'),
        ('7', '&'),
        ('8', '*'),
        ('9', '('),
        ('0', ')'),
        ('[', '{'),
        (']', '}'),
        ('/', '?'),
        ('=', '+'),
        ('-', '_'),
        ('\\', '|'),
        ('\'', '"'),
        (',', '<'),
        ('.', '>'),
        (';', ':'),
    ]
}

/// The punctuation pairs of a QWERTY keyboard.
fn qwerty_punct() -> (r: Vec<(char, char)>)
    ensures
        r@ == qwerty_punct_pairs(),
{
    let r = vec![
        ('`', '~'),
        ('1', '!'),
        ('2', '@'),
        ('3', '#'),
        ('4', '$'),
        ('5', '%'),
        ('6', '^'),
        ('7', '&'),
        ('8', '*'),
        ('9', '('),
        ('0', ')'),
        ('[', '{'),
        (']', '}'),
        ('/', '?'),
        ('=', '+'),
        ('-', '_'),
        ('\\', '|'),
        ('\'', '"'),
        (',', '<'),
        ('.', '>'),
        (';', ':'),
    ];
    assert(r@ =~= qwerty_punct_pairs());
    r
}

/// Typographic punctuation and its plain form.
pub open spec fn misc_convert_pairs() -> Seq<(char, char)> {
    seq![
        ('´', '\''),
        ('‘', '\''),
        ('’', '\''),
        ('÷', '/'),
        ('‐', '-'),
        ('–', '-'),
        ('—', '-'),
    ]
}

/// Typographic punctuation and its plain form.
fn misc_convert() -> (r: Vec<(char, char)>)
    ensures
        r@ == misc_convert_pairs(),
{
    let r = vec![
        ('´', '\''),
        ('‘', '\''),
        ('’', '\''),
        ('÷', '/'),
        ('‐', '-'),
        ('–', '-'),
        ('—', '-'),
    ];
    assert(r@ =~= misc_convert_pairs());
    r
}

/// Quotes typed as shift and the apostrophe: the apostrophe, then the quote.
pub open spec fn misc_upper_pairs() -> Seq<(char, char)> {
    seq![('«', '\''), ('»', '\''), ('“', '\''), ('”', '\'')]
}

/// Quotes typed as shift and the apostrophe.
fn misc_upper() -> (r: Vec<(char, char)>)
    ensures
        r@ == misc_upper_pairs(),
{
    let r = vec![('«', '\''), ('»', '\''), ('“', '\''), ('”', '\'')];
    assert(r@ =~= misc_upper_pairs());
    r
}

} // verus!
