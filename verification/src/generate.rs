//! The characters of a generator's corpus: encoding characters as indices and back.
use vstd::prelude::*;

use crate::corpus::{first_occurrences, lemma_first_occurrences, trigram_chars};
use crate::data::{Data, DataError};

verus! {

/// The index of `c` among `chars`, if it occurs.
pub open spec fn encode_char(chars: Seq<char>, c: char) -> Option<usize> {
    if chars.contains(c) {
        Some(chars.index_of(c) as usize)
    } else {
        None
    }
}

/// The character at index `u` of `chars`, if there is one.
pub open spec fn decode_index(chars: Seq<char>, u: usize) -> Option<char> {
    if u < chars.len() {
        Some(chars[u as int])
    } else {
        None
    }
}

/// What can go wrong while loading, making or saving a generator's corpus.
#[derive(Debug)]
pub enum CorpusError {
    /// The data could not be made or read.
    DataError(DataError),
    /// Reading or writing a file failed.
    IoError(std::io::Error),
}

/// The characters of a generator's corpus, each once, with the corpus's name. The index of a
/// character is its position; trigram frequencies are kept by the caller, at index
/// `u1·n² + u2·n + u3` for the trigram with character indices `u1`, `u2`, `u3` among `n`.
#[derive(Clone)]
pub struct Corpus {
    name: String,
    chars: Vec<char>,
}

impl Corpus {
    /// The characters.
    pub closed spec fn spec_chars(&self) -> Seq<char> {
        self.chars@
    }

    /// The name.
    pub closed spec fn spec_name(&self) -> Seq<char> {
        self.name@
    }

    /// No character occurs twice.
    pub open spec fn wf(&self) -> bool {
        self.spec_chars().no_duplicates()
    }

    /// The name.
    pub fn name(&self) -> (r: &str)
        ensures
            r@ == self.spec_name(),
    {
        self.name.as_str()
    }

    /// The characters of some trigram data, in the order in which they first occur.
    pub fn from_data(data: &Data) -> (r: Self)
        ensures
            r.wf(),
            r.spec_chars() == first_occurrences(trigram_chars(data.entries())),
            r.spec_name() == data.spec_name(),
    {
        let entries = data.trigrams();
        let ghost e = entries@;
        let mut flat: Vec<char> = Vec::new();
        let mut l: usize = 0;
        while l < entries.len()
            invariant
                e == entries@,
                l <= e.len(),
                flat@ == trigram_chars(e.take(l as int)),
            decreases e.len() - l,
        {
            let (t, _) = entries[l];
            flat.push(t[0]);
            flat.push(t[1]);
            flat.push(t[2]);
            proof {
                assert(e.take(l + 1).drop_last() == e.take(l as int));
            }
            l = l + 1;
        }
        assert(e.take(e.len() as int) == e);
        let chars = crate::corpus::unique_chars(flat);
        proof {
            lemma_first_occurrences(trigram_chars(e));
        }
        let name = data.name().to_owned();
        Corpus { name, chars }
    }

    /// The number of characters; there are that many cubed trigrams.
    pub fn len(&self) -> (n: usize)
        ensures
            n == self.spec_chars().len(),
    {
        self.chars.len()
    }

    /// The index of one character, if it occurs. The characters are kept once each in the
    /// order of their indices, and the index is found by a search over them, in place of a
    /// second table from characters to indices that would have to be kept in step with them.
    pub fn encode_char(&self, c: char) -> (r: Option<usize>)
        requires
            self.wf(),
        ensures
            r == encode_char(self.spec_chars(), c),
    {
        let mut i: usize = 0;
        while i < self.chars.len()
            invariant
                self.wf(),
                i <= self.chars@.len(),
                forall|j: int| 0 <= j < i ==> self.chars@[j] != c,
            decreases self.chars@.len() - i,
        {
            if self.chars[i] == c {
                proof {
                    let s = self.chars@;
                    assert(s[i as int] == c);
                    assert(s.contains(c));
                    let k = s.index_of(c);
                    assert(0 <= k < s.len() && s[k] == c);
                    assert(k == i);
                }
                return Some(i);
            }
            i = i + 1;
        }
        None
    }

    /// The index of each character, where it occurs.
    pub fn encode(&self, chars: &[char]) -> (r: Vec<Option<usize>>)
        requires
            self.wf(),
        ensures
            r@.len() == chars@.len(),
            forall|i: int| 0 <= i < chars@.len() ==> r@[i] == encode_char(self.spec_chars(), chars@[i]),
    {
        let mut r: Vec<Option<usize>> = Vec::new();
        let mut i: usize = 0;
        while i < chars.len()
            invariant
                self.wf(),
                i <= chars@.len(),
                r@.len() == i,
                forall|j: int| 0 <= j < i ==> r@[j] == encode_char(self.spec_chars(), chars@[j]),
            decreases chars@.len() - i,
        {
            r.push(self.encode_char(chars[i]));
            i = i + 1;
        }
        r
    }

    /// The index of each character, where it occurs; as `encode`.
    pub fn encode_slice(&self, chars: &[char]) -> (r: Vec<Option<usize>>)
        requires
            self.wf(),
        ensures
            r@.len() == chars@.len(),
            forall|i: int| 0 <= i < chars@.len() ==> r@[i] == encode_char(self.spec_chars(), chars@[i]),
    {
        self.encode(chars)
    }

    /// The indices of the three characters of a trigram, if all three occur.
    pub fn encode_trigram(&self, trigram: [char; 3]) -> (r: Option<[usize; 3]>)
        requires
            self.wf(),
        ensures
            r is Some <==> (encode_char(self.spec_chars(), trigram[0]) is Some && encode_char(
                self.spec_chars(),
                trigram[1],
            ) is Some && encode_char(self.spec_chars(), trigram[2]) is Some),
            r matches Some(u) ==> {
                &&& Some(u[0]) == encode_char(self.spec_chars(), trigram[0])
                &&& Some(u[1]) == encode_char(self.spec_chars(), trigram[1])
                &&& Some(u[2]) == encode_char(self.spec_chars(), trigram[2])
            },
    {
        if let Some(u1) = self.encode_char(trigram[0]) {
            if let Some(u2) = self.encode_char(trigram[1]) {
                if let Some(u3) = self.encode_char(trigram[2]) {
                    return Some([u1, u2, u3]);
                }
            }
        }
        None
    }

    /// The character at each index, where there is one.
    pub fn decode(&self, indices: &[usize]) -> (r: Vec<Option<char>>)
        ensures
            r@.len() == indices@.len(),
            forall|i: int|
                0 <= i < indices@.len() ==> r@[i] == decode_index(self.spec_chars(), indices@[i]),
    {
        let mut r: Vec<Option<char>> = Vec::new();
        let mut i: usize = 0;
        while i < indices.len()
            invariant
                i <= indices@.len(),
                r@.len() == i,
                forall|j: int|
                    0 <= j < i ==> r@[j] == decode_index(self.spec_chars(), indices@[j]),
            decreases indices@.len() - i,
        {
            let u = indices[i];
            if u < self.chars.len() {
                r.push(Some(self.chars[u]));
            } else {
                r.push(None);
            }
            i = i + 1;
        }
        r
    }

    /// The character at each index, where there is one; as `decode`.
    pub fn decode_slice(&self, indices: &[usize]) -> (r: Vec<Option<char>>)
        ensures
            r@.len() == indices@.len(),
            forall|i: int|
                0 <= i < indices@.len() ==> r@[i] == decode_index(self.spec_chars(), indices@[i]),
    {
        self.decode(indices)
    }

    /// The characters at three indices, if all three are indices of characters.
    pub fn decode_trigram(&self, trigram: [usize; 3]) -> (r: Option<[char; 3]>)
        ensures
            r is Some <==> (trigram[0] < self.spec_chars().len() && trigram[1]
                < self.spec_chars().len() && trigram[2] < self.spec_chars().len()),
            r matches Some(c) ==> {
                &&& c[0] == self.spec_chars()[trigram[0] as int]
                &&& c[1] == self.spec_chars()[trigram[1] as int]
                &&& c[2] == self.spec_chars()[trigram[2] as int]
            },
    {
        let n = self.chars.len();
        if trigram[0] < n && trigram[1] < n && trigram[2] < n {
            Some([self.chars[trigram[0]], self.chars[trigram[1]], self.chars[trigram[2]]])
        } else {
            None
        }
    }
}

/// Decoding undoes encoding: a character that occurs decodes back from its index, and an index
/// of a character encodes back from its character.
pub proof fn lemma_encode_decode(corpus: &Corpus, c: char, u: usize)
    requires
        corpus.wf(),
    ensures
        encode_char(corpus.spec_chars(), c) matches Some(i) ==> decode_index(corpus.spec_chars(), i)
            == Some(c),
        decode_index(corpus.spec_chars(), u) matches Some(d) ==> encode_char(corpus.spec_chars(), d)
            == Some(u),
{
    let chars = corpus.spec_chars();
    assert(corpus.chars.len() == chars.len());
    if chars.contains(c) {
        let k = chars.index_of(c);
        assert(0 <= k < chars.len() && chars[k] == c);
        assert(k as usize == k);
    }
    if u < chars.len() {
        let d = chars[u as int];
        assert(chars.contains(d));
        let k = chars.index_of(d);
        assert(0 <= k < chars.len() && chars[k] == d);
        assert(k == u);
    }
}

} // verus!
