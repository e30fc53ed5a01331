//! A small content digest (64-bit FNV-1a over words) used as the identity of
//! lectures, groups and snapshots.
use vstd::prelude::*;

verus! {

pub const DIGEST_OFFSET: u64 = 0xcbf2_9ce4_8422_2325;

pub const DIGEST_PRIME: u64 = 0x0000_0100_0000_01b3;

/// One step of the digest: mixes the word `w` into the state `h`.
pub open spec fn absorb(h: u64, w: u64) -> u64 {
    (h ^ w).wrapping_mul(DIGEST_PRIME)
}

/// The state reached from `h` after mixing in every word of `ws`, first to last.
pub open spec fn absorb_all(h: u64, ws: Seq<u64>) -> u64
    decreases ws.len(),
{
    if ws.len() == 0 {
        h
    } else {
        absorb(absorb_all(h, ws.drop_last()), ws.last())
    }
}

/// The digest of a sequence of words.
pub open spec fn digest_of(ws: Seq<u64>) -> u64 {
    absorb_all(DIGEST_OFFSET, ws)
}

/// A text as words: its length, then one word per character.
pub open spec fn text_words(s: Seq<char>) -> Seq<u64> {
    seq![s.len() as u64] + s.map_values(|c: char| c as u64)
}

/// An optional text as words: a tag that tells absence from presence, then the text.
pub open spec fn opt_text_words(o: Option<Seq<char>>) -> Seq<u64> {
    match o {
        None => seq![0u64],
        Some(s) => seq![1u64] + text_words(s),
    }
}

/// A list of child digests as words: their count, then the digests.
pub open spec fn list_words(ds: Seq<u64>) -> Seq<u64> {
    seq![ds.len() as u64] + ds
}

pub proof fn lemma_absorb_all_append(h: u64, a: Seq<u64>, b: Seq<u64>)
    ensures
        absorb_all(h, a + b) == absorb_all(absorb_all(h, a), b),
    decreases b.len(),
{
    if b.len() == 0 {
        assert(a + b == a);
    } else {
        lemma_absorb_all_append(h, a, b.drop_last());
        assert((a + b).drop_last() == a + b.drop_last());
        assert((a + b).last() == b.last());
    }
}

/// A running digest state together with the words it has absorbed.
pub struct Digest {
    pub state: u64,
    pub words: Ghost<Seq<u64>>,
}

impl Digest {
    pub open spec fn wf(&self) -> bool {
        self.state == digest_of(self.words@)
    }

    pub fn new() -> (r: Digest)
        ensures
            r.wf(),
            r.words@ == Seq::<u64>::empty(),
    {
        Digest { state: DIGEST_OFFSET, words: Ghost(Seq::empty()) }
    }

    pub fn word(&mut self, w: u64)
        requires
            old(self).wf(),
        ensures
            final(self).wf(),
            final(self).words@ == old(self).words@.push(w),
    {
        let ghost before = self.words@;
        self.state = (self.state ^ w).wrapping_mul(DIGEST_PRIME);
        self.words = Ghost(before.push(w));
        assert(self.words@.drop_last() == before);
    }

    pub fn text(&mut self, s: &str)
        requires
            old(self).wf(),
        ensures
            final(self).wf(),
            final(self).words@ == old(self).words@ + text_words(s@),
    {
        let ghost before = self.words@;
        let n = s.unicode_len();
        self.word(n as u64);
        assert(self.words@ =~= before + seq![n as u64] + s@.take(0).map_values(|c: char| c as u64));
        let mut i: usize = 0;
        while i < n
            invariant
                n == s@.len(),
                i <= n,
                self.wf(),
                self.words@ == before + seq![n as u64] + s@.take(i as int).map_values(
                    |c: char| c as u64,
                ),
            decreases n - i,
        {
            let c = s.get_char(i);
            self.word(c as u64);
            i = i + 1;
            assert(s@.take(i as int).map_values(|c: char| c as u64) =~= s@.take(
                (i - 1) as int,
            ).map_values(|c: char| c as u64).push(c as u64));
            assert(self.words@ =~= before + seq![n as u64] + s@.take(i as int).map_values(
                |c: char| c as u64,
            ));
        }
        assert(s@.take(n as int) == s@);
        assert(before + seq![n as u64] + s@.map_values(|c: char| c as u64) =~= before + text_words(
            s@,
        ));
    }

    pub fn opt_text(&mut self, o: &Option<String>)
        requires
            old(self).wf(),
        ensures
            final(self).wf(),
            final(self).words@ == old(self).words@ + opt_text_words(
                match o {
                    Some(s) => Some(s@),
                    None => None,
                },
            ),
    {
        let ghost before = self.words@;
        match o {
            None => {
                self.word(0);
                assert(self.words@ =~= before + seq![0u64]);
            },
            Some(s) => {
                self.word(1);
                self.text(s.as_str());
                assert(self.words@ =~= before + (seq![1u64] + text_words(s@)));
            },
        }
    }
}

} // verus!
