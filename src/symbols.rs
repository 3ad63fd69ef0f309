use vstd::prelude::*;

use crate::align::strings_view;
use crate::errors::Sbv2CoreError;

verus! {

/// The vocoder's phoneme inventory: a phoneme's id is its position; tones are shifted by
/// `tone_start` and every phoneme carries `language_id`.
pub struct PhoneSymbols {
    pub symbols: Vec<String>,
    pub tone_start: i32,
    pub language_id: i64,
}

/// The first position of `p` in the inventory, if it is there.
pub open spec fn symbol_id(syms: Seq<Seq<char>>, p: Seq<char>) -> Option<int> {
    if exists|k: int| 0 <= k < syms.len() && syms[k] == p {
        Some(
            choose|k: int|
                0 <= k < syms.len() && syms[k] == p && forall|j: int| 0 <= j < k ==> #[trigger] syms[j] != p,
        )
    } else {
        None
    }
}

/// Every phoneme of the list is in the inventory.
pub open spec fn all_known(syms: Seq<Seq<char>>, phones: Seq<Seq<char>>) -> bool {
    forall|i: int| 0 <= i < phones.len() ==> symbol_id(syms, #[trigger] phones[i]) is Some
}

impl PhoneSymbols {
    fn lookup(&self, p: &String) -> (r: Option<usize>)
        ensures
            r is Some <==> symbol_id(strings_view(self.symbols@), p@) is Some,
            r is Some ==> r->0 as int == symbol_id(strings_view(self.symbols@), p@)->0 && r->0
                < self.symbols@.len(),
    {
        let ghost sv = strings_view(self.symbols@);
        let mut k: usize = 0;
        while k < self.symbols.len()
            invariant
                sv == strings_view(self.symbols@),
                k <= self.symbols@.len(),
                forall|j: int| 0 <= j < k ==> sv[j] != p@,
            decreases self.symbols@.len() - k,
        {
            if self.symbols[k] == *p {
                proof {
                    assert(sv[k as int] == p@);
                    let c = symbol_id(sv, p@)->0;
                    if c < k {
                        assert(sv[c] != p@);
                    } else if c > k {
                        assert(sv[k as int] != p@);
                    }
                }
                return Some(k);
            }
            k = k + 1;
        }
        None
    }

    /// Phoneme ids, shifted tones and language ids for a phoneme/tone sequence; an unknown
    /// phoneme is reported.
    pub fn cleaned_text_to_sequence(&self, phones: &Vec<String>, tones: &Vec<i32>) -> (r: Result<
        (Vec<i64>, Vec<i64>, Vec<i64>),
        Sbv2CoreError,
    >)
        requires
            self.symbols@.len() <= i64::MAX,
        ensures
            r is Ok <==> all_known(strings_view(self.symbols@), strings_view(phones@)),
            r is Ok ==> {
                let (ids, ts, langs) = r->Ok_0;
                &&& ids@.len() == phones@.len() && langs@.len() == phones@.len()
                    && ts@.len() == tones@.len()
                &&& forall|i: int|
                    0 <= i < phones@.len() ==> #[trigger] ids@[i] == symbol_id(
                        strings_view(self.symbols@),
                        phones@[i]@,
                    )->0 && langs@[i] == self.language_id
                &&& forall|i: int|
                    0 <= i < tones@.len() ==> #[trigger] ts@[i] == tones@[i] + self.tone_start
            },
            r is Err ==> r->Err_0 is UnknownPhoneme,
    {
        let ghost sv = strings_view(self.symbols@);
        let mut ids: Vec<i64> = Vec::new();
        let mut langs: Vec<i64> = Vec::new();
        let mut i: usize = 0;
        while i < phones.len()
            invariant
                sv == strings_view(self.symbols@),
                self.symbols@.len() <= i64::MAX,
                i <= phones@.len(),
                ids@.len() == i && langs@.len() == i,
                forall|j: int| 0 <= j < i ==> symbol_id(sv, #[trigger] phones@[j]@) is Some,
                forall|j: int| 0 <= j < i ==> #[trigger] ids@[j] == symbol_id(sv, phones@[j]@)->0,
                forall|j: int| 0 <= j < i ==> #[trigger] langs@[j] == self.language_id,
            decreases phones@.len() - i,
        {
            match self.lookup(&phones[i]) {
                Some(k) => {
                    let ghost old_ids = ids@;
                    let ghost old_langs = langs@;
                    ids.push(k as i64);
                    langs.push(self.language_id);
                    proof {
                        assert forall|j: int| 0 <= j < i + 1 implies #[trigger] ids@[j] == symbol_id(
                            sv,
                            phones@[j]@,
                        )->0 by {
                            if j < i {
                                assert(ids@[j] == old_ids[j]);
                            } else {
                                assert(ids@[j] == k as i64);
                                assert(k as int == symbol_id(sv, phones@[j]@)->0);
                            }
                        }
                        assert forall|j: int| 0 <= j < i + 1 implies #[trigger] langs@[j]
                            == self.language_id by {
                            if j < i {
                                assert(langs@[j] == old_langs[j]);
                            }
                        }
                    }
                },
                None => {
                    proof {
                        assert(strings_view(phones@)[i as int] == phones@[i as int]@);
                    }
                    return Err(Sbv2CoreError::UnknownPhoneme(phones[i].clone()));
                },
            }
            i = i + 1;
        }
        proof {
            assert forall|j: int| 0 <= j < phones@.len() implies symbol_id(
                sv,
                #[trigger] strings_view(phones@)[j],
            ) is Some by {
                assert(strings_view(phones@)[j] == phones@[j]@);
            }
        }
        let mut ts: Vec<i64> = Vec::new();
        let mut j: usize = 0;
        while j < tones.len()
            invariant
                j <= tones@.len(),
                ts@.len() == j,
                forall|k: int| 0 <= k < j ==> #[trigger] ts@[k] == tones@[k] + self.tone_start,
            decreases tones@.len() - j,
        {
            ts.push(tones[j] as i64 + self.tone_start as i64);
            j = j + 1;
        }
        Ok((ids, ts, langs))
    }
}

} // verus!
