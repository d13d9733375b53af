//! Classification of trigrams, given as three keyboard positions, into types.
pub mod default;

use vstd::prelude::*;

use crate::finger::Finger;
use crate::keyboard::{Keyboard, Pos};
use itertools::Itertools;

verus! {

use crate::trigram_types::default::{
    default_type_count, default_type_names, default_type_test, lemma_default_types_partition, on_board, Alternation, Inroll, OnehandIn, OnehandOut, Outroll, Redirect, Sfb, Sfr, Sft, Unspecified,
};

/// A type of trigram, decided by the positions of its three keys and the fingering of the
/// keyboard.
pub trait TrigramType {
    /// Whether the three positions form a trigram of this type on a keyboard with the given
    /// fingering.
    spec fn spec_is_type(&self, fingers: Seq<Finger>, positions: [Pos; 3]) -> bool;

    /// The name of the type.
    spec fn spec_display(&self) -> Seq<char>;

    /// Whether the three positions form a trigram of this type on `keyboard`.
    fn is_type(&self, keyboard: &Keyboard, positions: [Pos; 3]) -> (r: bool)
        ensures
            r == self.spec_is_type(keyboard@, positions),
    ;

    /// The name of the type.
    fn display(&self) -> (r: &str)
        ensures
            r@ == self.spec_display(),
    ;
}

/// A trigram type given by a test on the three fingers of a trigram and a name. The test must
/// give an answer for every three fingers, and always the same one.
pub struct DynamicType<F: Fn([Finger; 3]) -> bool> {
    is_type: F,
    display: String,
}

/// Whether `f` answers for every three fingers, and each time alike.
pub open spec fn is_finger_test<F: Fn([Finger; 3]) -> bool>(f: F) -> bool {
    &&& forall|fs: [Finger; 3]| #[trigger] call_requires(f, (fs,))
    &&& forall|fs: [Finger; 3], r1: bool, r2: bool|
        call_ensures(f, (fs,), r1) && call_ensures(f, (fs,), r2) ==> r1 == r2
}

impl<F: Fn([Finger; 3]) -> bool> DynamicType<F> {
    #[verifier::type_invariant]
    spec fn test_is_sound(self) -> bool {
        is_finger_test(self.is_type)
    }

    /// The test of the type.
    pub closed spec fn spec_test(&self) -> F {
        self.is_type
    }

    /// The name of the type.
    pub closed spec fn spec_name(&self) -> Seq<char> {
        self.display@
    }

    /// A trigram type with the given test and name.
    pub fn new(is_type: F, display: String) -> (r: Self)
        requires
            is_finger_test(is_type),
        ensures
            r.spec_test() == is_type,
            r.spec_display() == display@,
    {
        Self { is_type, display }
    }
}

impl<F: Fn([Finger; 3]) -> bool> TrigramType for DynamicType<F> {
    /// All three positions lie on the keyboard and the test says yes to their fingers.
    open spec fn spec_is_type(&self, fingers: Seq<Finger>, positions: [Pos; 3]) -> bool {
        &&& positions[0] < fingers.len()
        &&& positions[1] < fingers.len()
        &&& positions[2] < fingers.len()
        &&& call_ensures(
            self.spec_test(),
            ([fingers[positions[0] as int], fingers[positions[1] as int], fingers[positions[2] as int]],),
            true,
        )
    }

    open spec fn spec_display(&self) -> Seq<char> {
        self.spec_name()
    }

    /// Off the keyboard the test is not asked and the answer is no; on it, the answer is what
    /// the test gives for the three fingers.
    fn is_type(&self, keyboard: &Keyboard, positions: [Pos; 3]) -> (r: bool)
        ensures
            !on_board(keyboard@, positions) ==> !r,
            on_board(keyboard@, positions) ==> call_ensures(
                self.spec_test(),
                (
                    [
                        keyboard@[positions[0] as int],
                        keyboard@[positions[1] as int],
                        keyboard@[positions[2] as int],
                    ],
                ),
                r,
            ),
    {
        proof {
            use_type_invariant(self);
        }
        let got = keyboard.get_fingers(positions);
        let fingers = match (got[0], got[1], got[2]) {
            (Some(f1), Some(f2), Some(f3)) => [f1, f2, f3],
            _ => return false,
        };
        let r = (self.is_type)(fingers);
        proof {
            if !r && call_ensures(self.is_type, (fingers,), true) {
                assert(false);
            }
        }
        r
    }

    fn display(&self) -> (r: &str) {
        self.display.as_str()
    }
}

/// Whether the trigram of positions `q` comes before `p` in lexicographic order.
pub open spec fn triple_before(q: [Pos; 3], p: [Pos; 3]) -> bool {
    ||| q[0] < p[0]
    ||| q[0] == p[0] && q[1] < p[1]
    ||| q[0] == p[0] && q[1] == p[1] && q[2] < p[2]
}

/// How many of `types` claim the trigram at `positions` on a keyboard with the given fingering.
pub open spec fn count_matching<'a>(
    types: Seq<&'a dyn TrigramType>,
    fingers: Seq<Finger>,
    positions: [Pos; 3],
) -> nat
    decreases types.len(),
{
    if types.len() == 0 {
        0
    } else {
        (if types[0].spec_is_type(fingers, positions) {
            1nat
        } else {
            0nat
        }) + count_matching(types.drop_first(), fingers, positions)
    }
}

/// How many of `types` claim the trigram of positions `i`, `j`, `k`.
pub open spec fn count_at<'a>(
    types: Seq<&'a dyn TrigramType>,
    fingers: Seq<Finger>,
    i: Pos,
    j: Pos,
    k: Pos,
) -> nat {
    count_matching(types, fingers, [i, j, k])
}

/// The index in `types` of the first type that claims the trigram at `positions`; the length of
/// `types` when none does.
pub open spec fn first_match_index<'a>(
    types: Seq<&'a dyn TrigramType>,
    fingers: Seq<Finger>,
    positions: [Pos; 3],
) -> nat
    decreases types.len(),
{
    if types.len() == 0 {
        0
    } else if types[0].spec_is_type(fingers, positions) {
        0
    } else {
        1 + first_match_index(types.drop_first(), fingers, positions)
    }
}

/// The first of `types` that claims the trigram at `positions`, or `fallback` when none does.
pub open spec fn first_match<'a>(
    types: Seq<&'a dyn TrigramType>,
    fallback: &'a dyn TrigramType,
    fingers: Seq<Finger>,
    positions: [Pos; 3],
) -> &'a dyn TrigramType {
    let i = first_match_index(types, fingers, positions);
    if i < types.len() {
        types[i as int]
    } else {
        fallback
    }
}

/// The names of `types`, in order.
pub open spec fn type_names<'a>(types: Seq<&'a dyn TrigramType>) -> Seq<Seq<char>> {
    types.map_values(|t: &'a dyn TrigramType| t.spec_display())
}

/// No two names are equal.
pub open spec fn all_distinct(names: Seq<Seq<char>>) -> bool {
    forall|i: int, j: int| 0 <= i < j < names.len() ==> names[i] != names[j]
}

/// Whether some trigram of positions on the keyboard is claimed by more than one of `types`, or
/// two names among those of `types` and `default_name` are equal.
pub open spec fn overlaps<'a>(
    types: Seq<&'a dyn TrigramType>,
    default_name: Seq<char>,
    fingers: Seq<Finger>,
) -> bool {
    ||| exists|i: Pos, j: Pos, k: Pos|
        i < fingers.len() && j < fingers.len() && k < fingers.len() && #[trigger] count_at(
            types,
            fingers,
            i,
            j,
            k,
        ) > 1
    ||| !all_distinct(type_names(types).push(default_name))
}

/// A trigram claimed by some type of a list is claimed by the first type of the list that
/// claims it; when at most one type claims it, that is the one.
pub proof fn lemma_first_match_is_the_match<'a>(
    types: Seq<&'a dyn TrigramType>,
    fingers: Seq<Finger>,
    positions: [Pos; 3],
    j: int,
)
    requires
        0 <= j < types.len(),
        types[j].spec_is_type(fingers, positions),
        count_matching(types, fingers, positions) <= 1,
    ensures
        first_match_index(types, fingers, positions) == j,
    decreases types.len(),
{
    if j > 0 {
        if types[0].spec_is_type(fingers, positions) {
            lemma_count_positive(types.drop_first(), fingers, positions, j - 1);
        } else {
            lemma_first_match_is_the_match(types.drop_first(), fingers, positions, j - 1);
        }
    }
}

/// A type of the list that claims a trigram makes its count positive.
pub proof fn lemma_count_positive<'a>(
    types: Seq<&'a dyn TrigramType>,
    fingers: Seq<Finger>,
    positions: [Pos; 3],
    j: int,
)
    requires
        0 <= j < types.len(),
        types[j].spec_is_type(fingers, positions),
    ensures
        count_matching(types, fingers, positions) >= 1,
    decreases types.len(),
{
    if j > 0 {
        lemma_count_positive(types.drop_first(), fingers, positions, j - 1);
    }
}

/// A trigram that some type of a list claims gets a type of the list, one that claims it, and
/// not the default type.
pub proof fn lemma_claimed_trigram<'a>(
    types: Seq<&'a dyn TrigramType>,
    fingers: Seq<Finger>,
    positions: [Pos; 3],
)
    requires
        count_matching(types, fingers, positions) >= 1,
    ensures
        first_match_index(types, fingers, positions) < types.len(),
        types[first_match_index(types, fingers, positions) as int].spec_is_type(fingers, positions),
    decreases types.len(),
{
    if types.len() > 0 && !types[0].spec_is_type(fingers, positions) {
        let rest = types.drop_first();
        lemma_claimed_trigram(rest, fingers, positions);
        let k = first_match_index(rest, fingers, positions);
        assert(rest[k as int] == types[k as int + 1]);
    }
}

/// When no type of the list claims a trigram, no index matches.
pub proof fn lemma_first_match_none<'a>(
    types: Seq<&'a dyn TrigramType>,
    fingers: Seq<Finger>,
    positions: [Pos; 3],
)
    requires
        count_matching(types, fingers, positions) == 0,
    ensures
        first_match_index(types, fingers, positions) == types.len(),
    decreases types.len(),
{
    if types.len() > 0 {
        lemma_first_match_none(types.drop_first(), fingers, positions);
    }
}

/// The contents of a list of string slices.
pub open spec fn str_views(v: Seq<&str>) -> Seq<Seq<char>> {
    v.map_values(|s: &str| s@)
}

/// Whether every element of `names` differs from every other, by content.
#[verifier::external_body]
fn all_unique_names(names: &Vec<&str>) -> (r: bool)
    ensures
        r == all_distinct(str_views(names@)),
{
    names.iter().all_unique()
}

/// Adding an element at the end of a sequence and taking the old length gives the sequence
/// back.
pub proof fn lemma_push_then_truncate<A>(s: Seq<A>, a: A)
    ensures
        s.push(a).len() == s.len() + 1,
        s.push(a).subrange(0, s.len() as int) == s,
{
    assert(s.push(a).subrange(0, s.len() as int) =~= s);
}

/// A list of trigram types for one keyboard, with a default type for the trigrams that none of
/// them claims.
#[derive(Clone)]
pub struct TrigramTypes<'a> {
    keyboard: Keyboard,
    types: Vec<&'a dyn TrigramType>,
    default: &'a dyn TrigramType,
}

impl<'a> TrigramTypes<'a> {
    /// The fingering of the keyboard.
    pub closed spec fn spec_keyboard(&self) -> Seq<Finger> {
        self.keyboard@
    }

    /// The list of types.
    pub closed spec fn spec_types(&self) -> Seq<&'a dyn TrigramType> {
        self.types@
    }

    /// The default type, as the list's own reference to it.
    pub closed spec fn spec_default(&self) -> &&'a dyn TrigramType {
        &self.default
    }

    /// The name of the default type.
    pub closed spec fn spec_default_name(&self) -> Seq<char> {
        self.default.spec_display()
    }

    /// Whether the default type claims no trigram on any keyboard.
    pub closed spec fn default_claims_nothing(&self) -> bool {
        forall|f: Seq<Finger>, p: [Pos; 3]| !self.default.spec_is_type(f, p)
    }

    /// No trigram on the keyboard is claimed by two types, and all names differ.
    pub open spec fn wf(&self) -> bool {
        !overlaps(self.spec_types(), self.spec_default_name(), self.spec_keyboard())
    }

    /// The default type: the type of the trigrams that none of the list claims. It comes as a
    /// reference to the list's own reference to it.
    pub fn default(&self) -> (r: &&'a dyn TrigramType)
        ensures
            r == self.spec_default(),
            r.spec_display() == self.spec_default_name(),
    {
        &self.default
    }

    /// The list of types.
    pub fn types(&self) -> (r: &Vec<&'a dyn TrigramType>)
        ensures
            r@ == self.spec_types(),
    {
        &self.types
    }

    /// The keyboard.
    pub fn keyboard(&self) -> (r: &Keyboard)
        ensures
            r@ == self.spec_keyboard(),
    {
        &self.keyboard
    }

    /// Where in the list the type of the trigram at `positions` stands: the index of the first
    /// type that claims it, or the length of the list when none does.
    pub fn type_index(&self, positions: [Pos; 3]) -> (i: usize)
        ensures
            i == first_match_index(self.spec_types(), self.spec_keyboard(), positions),
    {
        let mut i: usize = 0;
        assert(self.types@.skip(0) == self.types@);
        while i < self.types.len()
            invariant
                i <= self.types@.len(),
                first_match_index(self.types@, self.keyboard@, positions) == i + first_match_index(
                    self.types@.skip(i as int),
                    self.keyboard@,
                    positions,
                ),
            decreases self.types@.len() - i,
        {
            if self.types[i].is_type(&self.keyboard, positions) {
                return i;
            }
            assert(self.types@.skip(i as int).drop_first() == self.types@.skip(i + 1));
            i = i + 1;
        }
        i
    }

    /// The type of the trigram at `positions`: the first of the list that claims it, else the
    /// default type. It comes as a reference to the list's own reference to it.
    pub fn get_type(&'a self, positions: [Pos; 3]) -> (r: &'a &'a dyn TrigramType)
        ensures
            first_match_index(self.spec_types(), self.spec_keyboard(), positions)
                < self.spec_types().len() ==> *r == self.spec_types()[first_match_index(
                self.spec_types(),
                self.spec_keyboard(),
                positions,
            ) as int],
            first_match_index(self.spec_types(), self.spec_keyboard(), positions)
                >= self.spec_types().len() ==> r == self.spec_default() && r.spec_display()
                == self.spec_default_name(),
    {
        let i = self.type_index(positions);
        if i < self.types.len() {
            &self.types[i]
        } else {
            &self.default
        }
    }

    /// How many of the types claim the trigram at `positions`.
    fn count_types(
        types: &Vec<&'a dyn TrigramType>,
        keyboard: &Keyboard,
        positions: [Pos; 3],
    ) -> (c: usize)
        ensures
            c == count_matching(types@, keyboard@, positions),
            c <= types@.len(),
    {
        let mut c: usize = 0;
        let n = types.len();
        let mut l: usize = n;
        proof {
            assert(types@.skip(l as int).len() == 0);
        }
        while l > 0
            invariant
                n == types@.len(),
                l <= n,
                c == count_matching(types@.skip(l as int), keyboard@, positions),
                c <= n - l,
            decreases l,
        {
            assert(types@.skip(l - 1).drop_first() == types@.skip(l as int));
            if types[l - 1].is_type(keyboard, positions) {
                c = c + 1;
            }
            l = l - 1;
        }
        assert(types@.skip(0) == types@);
        c
    }

    /// The first trigram of positions on the keyboard, in lexicographic order, that two or more
    /// of the types claim; `None` when no trigram on the keyboard is claimed twice.
    pub fn first_overlap(types: &Vec<&'a dyn TrigramType>, keyboard: &Keyboard) -> (r: Option<
        [Pos; 3],
    >)
        ensures
            r matches Some(p) ==> {
                &&& on_board(keyboard@, p)
                &&& count_at(types@, keyboard@, p[0], p[1], p[2]) > 1
                &&& forall|a: Pos, b: Pos, c: Pos|
                    #![trigger count_at(types@, keyboard@, a, b, c)]
                    on_board(keyboard@, [a, b, c]) && triple_before([a, b, c], p)
                        ==> count_at(types@, keyboard@, a, b, c) <= 1
            },
            r is None ==> forall|a: Pos, b: Pos, c: Pos|
                a < keyboard@.len() && b < keyboard@.len() && c
                    < keyboard@.len() ==> #[trigger] count_at(
                    types@,
                    keyboard@,
                    a,
                    b,
                    c,
                ) <= 1,
    {
        let n = keyboard.len();
        let ghost fingers = keyboard@;
        let ghost ts = types@;
        let mut i: usize = 0;
        while i < n
            invariant
                n == fingers.len(),
                fingers == keyboard@,
                ts == types@,
                i <= n,
                forall|a: Pos, b: Pos, c: Pos|
                    a < i && b < n && c < n ==> #[trigger] count_at(ts, fingers, a, b, c) <= 1,
            decreases n - i,
        {
            let mut j: usize = 0;
            while j < n
                invariant
                    n == fingers.len(),
                    fingers == keyboard@,
                    ts == types@,
                    i < n,
                    j <= n,
                    forall|a: Pos, b: Pos, c: Pos|
                        a < i && b < n && c < n ==> #[trigger] count_at(ts, fingers, a, b, c)
                            <= 1,
                    forall|b: Pos, c: Pos|
                        b < j && c < n ==> #[trigger] count_at(ts, fingers, i, b, c) <= 1,
                decreases n - j,
            {
                let mut k: usize = 0;
                while k < n
                    invariant
                        n == fingers.len(),
                        fingers == keyboard@,
                        ts == types@,
                        i < n,
                        j < n,
                        k <= n,
                        forall|a: Pos, b: Pos, c: Pos|
                            a < i && b < n && c < n ==> #[trigger] count_at(ts, fingers, a, b, c)
                                <= 1,
                        forall|b: Pos, c: Pos|
                            b < j && c < n ==> #[trigger] count_at(ts, fingers, i, b, c) <= 1,
                        forall|c: Pos| c < k ==> #[trigger] count_at(ts, fingers, i, j, c) <= 1,
                    decreases n - k,
                {
                    if Self::count_types(types, keyboard, [i, j, k]) > 1 {
                        assert(count_at(ts, fingers, i, j, k) > 1);
                        return Some([i, j, k]);
                    }
                    k = k + 1;
                }
                j = j + 1;
            }
            i = i + 1;
        }
        None
    }

    /// Whether some trigram on the keyboard is claimed by two of the types, or two of the types
    /// and the default type share a name.
    pub fn has_overlap(&self) -> (r: bool)
        ensures
            r == overlaps(self.spec_types(), self.spec_default_name(), self.spec_keyboard()),
    {
        let ghost fingers = self.keyboard@;
        let ghost types = self.types@;
        if let Some(p) = Self::first_overlap(&self.types, &self.keyboard) {
            assert(count_at(types, fingers, p[0], p[1], p[2]) > 1);
            return true;
        }
        let mut names: Vec<&str> = Vec::new();
        let mut l: usize = 0;
        while l < self.types.len()
            invariant
                types == self.types@,
                l <= types.len(),
                names@.len() == l,
                forall|x: int| 0 <= x < l ==> #[trigger] names@[x]@ == types[x].spec_display(),
            decreases types.len() - l,
        {
            names.push(self.types[l].display());
            l = l + 1;
        }
        names.push(self.default.display());
        let ghost full = type_names(types).push(self.default.spec_display());
        assert forall|x: int| 0 <= x < names@.len() implies str_views(names@)[x] == full[x] by {
            assert(names@[x]@ == str_views(names@)[x]);
        }
        assert(str_views(names@) =~= full);
        !all_unique_names(&names)
    }

    /// Adds `t` at the end of the list when the longer list has no overlap; otherwise leaves
    /// the list as it was and gives `None`.
    pub fn add_type(&'a mut self, t: &'a dyn TrigramType) -> (r: Option<()>)
        ensures
            r is Some <==> !overlaps(
                old(self).spec_types().push(t),
                old(self).spec_default_name(),
                old(self).spec_keyboard(),
            ),
            final(self).spec_types() == (if r is Some {
                old(self).spec_types().push(t)
            } else {
                old(self).spec_types()
            }),
            final(self).spec_default() == old(self).spec_default(),
            final(self).spec_default_name() == old(self).spec_default_name(),
            final(self).spec_keyboard() == old(self).spec_keyboard(),
            r is Some ==> final(self).wf(),
            r is None ==> final(self).wf() == old(self).wf(),
    {
        self.types.push(t);
        if !self.has_overlap() {
            Some(())
        } else {
            proof {
                lemma_push_then_truncate(old(self).types@, t);
            }
            self.types.pop();
            None
        }
    }

    /// A list of types for `keyboard`, with `Unspecified` as the default, when no trigram on the
    /// keyboard is claimed by two of them and no two names are equal; else `None`.
    pub fn new(types: Vec<&'a dyn TrigramType>, keyboard: Keyboard) -> (r: Option<Self>)
        ensures
            r is Some <==> !overlaps(types@, "Unspecified"@, keyboard@),
            r matches Some(t) ==> {
                &&& t.spec_types() == types@
                &&& t.spec_keyboard() == keyboard@
                &&& t.spec_default_name() == "Unspecified"@
                &&& t.default_claims_nothing()
                &&& t.wf()
            },
    {
        let new = Self { keyboard, types, default: &Unspecified };
        if !new.has_overlap() {
            Some(new)
        } else {
            None
        }
    }

    /// The nine default types (`Sfb`, `Sfr`, `Sft`, `Inroll`, `Outroll`, `Alternation`,
    /// `OnehandIn`, `OnehandOut`, `Redirect`) for `keyboard`, with `Unspecified` as the default.
    /// Every trigram whose positions lie on the keyboard is claimed by exactly one of them.
    pub fn with_defaults(keyboard: Keyboard) -> (r: Self)
        ensures
            r.spec_keyboard() == keyboard@,
            r.spec_types().len() == 9,
            type_names(r.spec_types()) == default_type_names(),
            forall|i: int, p: [Pos; 3]|
                0 <= i < 9 ==> #[trigger] r.spec_types()[i].spec_is_type(keyboard@, p)
                    == default_type_test(i, keyboard@, p),
            r.spec_default_name() == "Unspecified"@,
            forall|p: [Pos; 3]|
                on_board(keyboard@, p) ==> #[trigger] count_matching(r.spec_types(), keyboard@, p)
                    == 1,
            forall|p: [Pos; 3]| count_matching(r.spec_types(), keyboard@, p) <= 1,
            r.wf(),
    {
        let types: Vec<&dyn TrigramType> = vec![
            &Sfb,
            &Sfr,
            &Sft,
            &Inroll,
            &Outroll,
            &Alternation,
            &OnehandIn,
            &OnehandOut,
            &Redirect,
        ];
        let r = Self { keyboard, types, default: &Unspecified };
        proof {
            let ts = r.types@;
            let f = r.keyboard@;
            assert forall|p: [Pos; 3]| #[trigger]
                count_matching(ts, f, p) == default_type_count(f, p) by {
                reveal_with_fuel(count_matching, 10);
            }
            assert forall|p: [Pos; 3]| count_matching(ts, f, p) <= 1 by {
                lemma_default_types_partition(f, p);
            }
            assert forall|p: [Pos; 3]| on_board(f, p) implies #[trigger] count_matching(ts, f, p)
                == 1 by {
                lemma_default_types_partition(f, p);
            }
            reveal_strlit("Sfb");
            reveal_strlit("Sfr");
            reveal_strlit("Sft");
            reveal_strlit("Inroll");
            reveal_strlit("Outroll");
            reveal_strlit("Alternation");
            reveal_strlit("Onehand In");
            reveal_strlit("Onehand Out");
            reveal_strlit("Redirect");
            reveal_strlit("Unspecified");
            let names = type_names(ts).push(r.default.spec_display());
            assert(names.len() == 10);
            assert(names[0] == "Sfb"@);
            assert(names[1] == "Sfr"@);
            assert(names[2] == "Sft"@);
            assert(names[3] == "Inroll"@);
            assert(names[4] == "Outroll"@);
            assert(names[5] == "Alternation"@);
            assert(names[6] == "Onehand In"@);
            assert(names[7] == "Onehand Out"@);
            assert(names[8] == "Redirect"@);
            assert(names[9] == "Unspecified"@);
            assert forall|i: int, j: int| 0 <= i < j < names.len() implies names[i] != names[j] by {
                if names[i] == names[j] {
                    assert(names[i].len() == names[j].len());
                    assert(names[i][0] == names[j][0]);
                    assert(names[i][2] == names[j][2]);
                    assert(names[i][8] == names[j][8]);
                }
            }
            assert(all_distinct(names));
            assert(type_names(ts) == default_type_names()) by {
                assert forall|i: int| 0 <= i < 9 implies type_names(ts)[i] == default_type_names()[i]
                    by {
                    assert(type_names(ts)[i] == names[i]);
                }
            }
            assert forall|i: int, p: [Pos; 3]|
                0 <= i < 9 implies #[trigger] ts[i].spec_is_type(f, p) == default_type_test(i, f, p)
                by {
                if i == 0 {
                } else if i == 1 {
                } else if i == 2 {
                } else if i == 3 {
                } else if i == 4 {
                } else if i == 5 {
                } else if i == 6 {
                } else if i == 7 {
                } else {
                }
            }
        }
        r
    }
}

} // verus!
